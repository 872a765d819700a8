use codespan::Span;
use lisp_syntax::ast::{Token, TokenKind};
use lisp_syntax::chars::{
    char_is_digit, char_is_symbol_start, char_is_whitespace, run_extended_by, run_opened_by,
    RunKind,
};
use lisp_syntax::error::ParseError;
use lisp_syntax::lexer::tokenise;
use lisp_syntax::offsets::utf8_width_of;

fn token(kind: TokenKind, start: u32, end: u32) -> Token {
    Token::with_span(kind, Span::new(start, end))
}

fn symbol(name: &str, start: u32, end: u32) -> Token {
    token(TokenKind::Symbol(name.to_string()), start, end)
}

fn kinds(source: &str) -> Vec<TokenKind> {
    tokenise(source).unwrap().into_iter().map(|t| t.kind).collect()
}

#[test]
fn empty_source_has_no_tokens() {
    assert_eq!(tokenise(""), Ok(vec![]));
}

#[test]
fn whitespace_and_comments_give_no_tokens() {
    assert_eq!(tokenise("   \t\r\n"), Ok(vec![]));
    assert_eq!(tokenise("; a comment"), Ok(vec![]));
    assert_eq!(tokenise("; one\n ; two\r\n\t; three"), Ok(vec![]));
    assert_eq!(tokenise(" \u{a0}\u{2003}\u{3000} ; (f 1 #) \u{e9}\n "), Ok(vec![]));
}

#[test]
fn comment_ends_at_line_end_only() {
    assert_eq!(
        tokenise("; x (y) 12\nz"),
        Ok(vec![symbol("z", 11, 12)])
    );
    assert_eq!(
        tokenise("a;b\rc"),
        Ok(vec![symbol("a", 0, 1), symbol("c", 4, 5)])
    );
}

#[test]
fn digits_give_one_number_over_the_whole_input() {
    assert_eq!(tokenise("0"), Ok(vec![token(TokenKind::Number(0), 0, 1)]));
    assert_eq!(tokenise("42"), Ok(vec![token(TokenKind::Number(42), 0, 2)]));
    assert_eq!(tokenise("007"), Ok(vec![token(TokenKind::Number(7), 0, 3)]));
    assert_eq!(
        tokenise("9223372036854775807"),
        Ok(vec![token(TokenKind::Number(i64::MAX), 0, 19)])
    );
}

#[test]
fn number_above_the_range_overflows() {
    assert_eq!(tokenise("9223372036854775808"), Err(ParseError::NumberOverflow));
    assert_eq!(tokenise("99999999999999999999999999"), Err(ParseError::NumberOverflow));
    assert_eq!(tokenise("(f 18446744073709551616)"), Err(ParseError::NumberOverflow));
    assert_eq!(
        tokenise("00000000000000000000009223372036854775807"),
        Ok(vec![token(TokenKind::Number(i64::MAX), 0, 41)])
    );
}

#[test]
fn first_error_in_source_order_wins() {
    assert_eq!(tokenise("99999999999999999999 #"), Err(ParseError::NumberOverflow));
    assert_eq!(tokenise("# 99999999999999999999"), Err(ParseError::InvalidCharacter));
}

#[test]
fn unknown_character_is_rejected() {
    assert_eq!(tokenise("#"), Err(ParseError::InvalidCharacter));
    assert_eq!(tokenise("abc#def"), Err(ParseError::InvalidCharacter));
    assert_eq!(tokenise("(f \"text\")"), Err(ParseError::InvalidCharacter));
    assert_eq!(tokenise("x \u{e9}"), Err(ParseError::InvalidCharacter));
    assert_eq!(tokenise("[1]"), Err(ParseError::InvalidCharacter));
}

#[test]
fn brackets_are_single_tokens() {
    assert_eq!(
        tokenise("(()"),
        Ok(vec![
            token(TokenKind::LeftBracket, 0, 1),
            token(TokenKind::LeftBracket, 1, 2),
            token(TokenKind::RightBracket, 2, 3),
        ])
    );
}

#[test]
fn symbols_take_letters_punctuation_and_digits() {
    assert_eq!(tokenise("set-car!"), Ok(vec![symbol("set-car!", 0, 8)]));
    assert_eq!(tokenise("x1"), Ok(vec![symbol("x1", 0, 2)]));
    assert_eq!(tokenise("<=>"), Ok(vec![symbol("<=>", 0, 3)]));
    assert_eq!(
        tokenise("!%&*+-./:<=>?@$^"),
        Ok(vec![symbol("!%&*+-./:<=>?@$^", 0, 16)])
    );
}

#[test]
fn number_then_letters_is_two_tokens() {
    assert_eq!(
        tokenise("12ab"),
        Ok(vec![token(TokenKind::Number(12), 0, 2), symbol("ab", 2, 4)])
    );
    assert_eq!(
        tokenise("-5"),
        Ok(vec![symbol("-5", 0, 2)])
    );
}

#[test]
fn tokens_of_a_form() {
    assert_eq!(
        tokenise("(define x 5)"),
        Ok(vec![
            token(TokenKind::LeftBracket, 0, 1),
            symbol("define", 1, 7),
            symbol("x", 8, 9),
            token(TokenKind::Number(5), 10, 11),
            token(TokenKind::RightBracket, 11, 12),
        ])
    );
}

#[test]
fn spans_count_bytes_not_characters() {
    // U+00A0 takes two bytes, U+3000 three; the comment holds a four-byte character.
    assert_eq!(
        tokenise("\u{a0}a\u{3000}b;\u{1f600}\nc"),
        Ok(vec![symbol("a", 2, 3), symbol("b", 6, 7), symbol("c", 13, 14)])
    );
}

#[test]
fn span_text_spells_the_token() {
    let source = " (if\u{2003}cond 12 (f\tx) ; note \u{e9}\n 007)";
    let tokens = tokenise(source).unwrap();
    assert_eq!(tokens.len(), 10);
    let mut last_end = 0usize;
    for t in &tokens {
        let start = u32::from(t.span.start()) as usize;
        let end = u32::from(t.span.end()) as usize;
        assert!(last_end <= start && start < end);
        last_end = end;
        let text = &source[start..end];
        match &t.kind {
            TokenKind::LeftBracket => assert_eq!(text, "("),
            TokenKind::RightBracket => assert_eq!(text, ")"),
            TokenKind::Number(n) => assert_eq!(text.parse::<i64>().unwrap(), *n),
            TokenKind::Symbol(name) => assert_eq!(text, name),
        }
    }
}

#[test]
fn token_text_lexes_to_the_same_kind() {
    let source = "(define (sq x) (* x x)) ; square\n(sq 0012) <=? a.b";
    let tokens = tokenise(source).unwrap();
    assert_eq!(tokens.len(), 18);
    for t in &tokens {
        let start = u32::from(t.span.start()) as usize;
        let end = u32::from(t.span.end()) as usize;
        let again = tokenise(&source[start..end]).unwrap();
        assert_eq!(again.len(), 1);
        assert_eq!(again[0].kind, t.kind);
        assert_eq!(again[0].span, Span::new(0, (end - start) as u32));
    }
}

#[test]
fn kinds_in_order() {
    assert_eq!(
        kinds("(+ 1 two)"),
        vec![
            TokenKind::LeftBracket,
            TokenKind::Symbol("+".to_string()),
            TokenKind::Number(1),
            TokenKind::Symbol("two".to_string()),
            TokenKind::RightBracket,
        ]
    );
}

#[test]
fn whitespace_is_the_unicode_property() {
    let mut count = 0;
    for code in 0..=0x10ffffu32 {
        if let Some(c) = char::from_u32(code) {
            assert_eq!(char_is_whitespace(c), c.is_whitespace(), "U+{:04X}", code);
            if char_is_whitespace(c) {
                count += 1;
            }
        }
    }
    assert_eq!(count, 25);
    assert!(!char_is_whitespace('\u{180e}'));
    assert!(!char_is_whitespace('\u{200b}'));
    assert!(!char_is_whitespace('\u{feff}'));
}

#[test]
fn width_is_the_utf8_length() {
    for code in 0..=0x10ffffu32 {
        if let Some(c) = char::from_u32(code) {
            assert_eq!(utf8_width_of(c), c.len_utf8(), "U+{:04X}", code);
        }
    }
    assert_eq!(utf8_width_of('a'), 1);
    assert_eq!(utf8_width_of('\u{e9}'), 2);
    assert_eq!(utf8_width_of('\u{3000}'), 3);
    assert_eq!(utf8_width_of('\u{1f600}'), 4);
}

#[test]
fn character_classes() {
    assert_eq!(run_opened_by('('), Some(RunKind::LeftBracket));
    assert_eq!(run_opened_by(')'), Some(RunKind::RightBracket));
    assert_eq!(run_opened_by('7'), Some(RunKind::Number));
    assert_eq!(run_opened_by('q'), Some(RunKind::Symbol));
    assert_eq!(run_opened_by('Z'), Some(RunKind::Symbol));
    assert_eq!(run_opened_by('^'), Some(RunKind::Symbol));
    assert_eq!(run_opened_by(';'), Some(RunKind::Comment));
    assert_eq!(run_opened_by('\n'), Some(RunKind::Whitespace));
    assert_eq!(run_opened_by('\u{2028}'), Some(RunKind::Whitespace));
    for c in ['#', '"', '\'', ',', '[', ']', '{', '}', '_', '~', '|', '\\', '`', '\0', '\u{e9}'] {
        assert_eq!(run_opened_by(c), None, "{:?}", c);
    }
    assert!(char_is_digit('0') && char_is_digit('9') && !char_is_digit('a'));
    assert!(!char_is_digit('/') && !char_is_digit(':'));
    assert!(char_is_symbol_start('a') && char_is_symbol_start('z'));
    assert!(char_is_symbol_start('A') && char_is_symbol_start('Z'));
    assert!(!char_is_symbol_start('[') && !char_is_symbol_start('`'));
    assert!(!char_is_symbol_start('{') && !char_is_symbol_start('0'));
}

#[test]
fn run_continuations() {
    assert!(!run_extended_by(RunKind::LeftBracket, '('));
    assert!(!run_extended_by(RunKind::RightBracket, ')'));
    assert!(run_extended_by(RunKind::Number, '5'));
    assert!(!run_extended_by(RunKind::Number, 'a'));
    assert!(run_extended_by(RunKind::Symbol, '5'));
    assert!(run_extended_by(RunKind::Symbol, '-'));
    assert!(!run_extended_by(RunKind::Symbol, '('));
    assert!(!run_extended_by(RunKind::Symbol, ';'));
    assert!(run_extended_by(RunKind::Whitespace, '\u{85}'));
    assert!(!run_extended_by(RunKind::Whitespace, 'a'));
    assert!(run_extended_by(RunKind::Comment, ';'));
    assert!(run_extended_by(RunKind::Comment, '\t'));
    assert!(run_extended_by(RunKind::Comment, '\u{2028}'));
    assert!(!run_extended_by(RunKind::Comment, '\n'));
    assert!(!run_extended_by(RunKind::Comment, '\r'));
}
