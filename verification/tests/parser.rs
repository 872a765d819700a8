use codespan::Span;
use lisp_syntax::ast::{Expr, Token, TokenKind};
use lisp_syntax::error::ParseError;
use lisp_syntax::lexer::tokenise;
use lisp_syntax::parser::{form_kind_of, parse, same_text, FormKind, ParseState};

fn token(kind: TokenKind, start: u32, end: u32) -> Token {
    Token::with_span(kind, Span::new(start, end))
}

fn open(at: u32) -> Token {
    token(TokenKind::LeftBracket, at, at + 1)
}

fn close(at: u32) -> Token {
    token(TokenKind::RightBracket, at, at + 1)
}

fn symbol(name: &str, start: u32) -> Token {
    token(TokenKind::Symbol(name.to_string()), start, start + name.len() as u32)
}

fn number_leaf(value: i64, start: u32, end: u32) -> Expr {
    Expr::Number(token(TokenKind::Number(value), start, end), value)
}

fn symbol_leaf(name: &str, start: u32) -> Expr {
    Expr::Symbol(symbol(name, start), name.to_string())
}

#[test]
fn parse_if_form() {
    assert_eq!(
        parse("(if 1 2 3)"),
        Ok(Expr::If(
            open(0),
            symbol("if", 1),
            Box::new(number_leaf(1, 4, 5)),
            Box::new(number_leaf(2, 6, 7)),
            Box::new(number_leaf(3, 8, 9)),
            close(9),
        ))
    );
}

#[test]
fn parse_define_form() {
    assert_eq!(
        parse("(define x 5)"),
        Ok(Expr::Define(
            open(0),
            symbol("define", 1),
            symbol("x", 8),
            Box::new(number_leaf(5, 10, 11)),
            close(11),
        ))
    );
}

#[test]
fn parse_call_form() {
    assert_eq!(
        parse("(f a b c)"),
        Ok(Expr::Call(
            open(0),
            symbol("f", 1),
            vec![symbol_leaf("a", 3), symbol_leaf("b", 5), symbol_leaf("c", 7)],
            close(8),
        ))
    );
}

#[test]
fn parse_call_without_arguments() {
    assert_eq!(
        parse("(f)"),
        Ok(Expr::Call(open(0), symbol("f", 1), vec![], close(2)))
    );
}

#[test]
fn parse_empty_form_is_invalid() {
    assert_eq!(parse("()"), Err(ParseError::InvalidForm));
}

#[test]
fn parse_form_without_leading_symbol_is_invalid() {
    assert_eq!(parse("(1 2)"), Err(ParseError::InvalidForm));
    assert_eq!(parse("((f) 2)"), Err(ParseError::InvalidForm));
    assert_eq!(parse("("), Err(ParseError::InvalidForm));
    assert_eq!(parse("(f ()"), Err(ParseError::InvalidForm));
}

#[test]
fn parse_closing_bracket_is_unexpected() {
    assert_eq!(parse(")"), Err(ParseError::UnexpectedToken));
    assert_eq!(parse("(if 1 2 ))"), Err(ParseError::UnexpectedToken));
    assert_eq!(parse("(define x )"), Err(ParseError::UnexpectedToken));
}

#[test]
fn parse_empty_source_ends_unexpectedly() {
    assert_eq!(parse(""), Err(ParseError::UnexpectedEnd));
    assert_eq!(parse("  ; nothing here\n"), Err(ParseError::UnexpectedEnd));
}

#[test]
fn parse_unfinished_forms_end_unexpectedly() {
    assert_eq!(parse("(if"), Err(ParseError::UnexpectedEnd));
    assert_eq!(parse("(if 1 2"), Err(ParseError::UnexpectedEnd));
    assert_eq!(parse("(if 1 2 3"), Err(ParseError::UnexpectedEnd));
    assert_eq!(parse("(define"), Err(ParseError::UnexpectedEnd));
    assert_eq!(parse("(define x"), Err(ParseError::UnexpectedEnd));
    assert_eq!(parse("(define x 5"), Err(ParseError::UnexpectedEnd));
    assert_eq!(parse("(f"), Err(ParseError::UnexpectedEnd));
    assert_eq!(parse("(f a b"), Err(ParseError::UnexpectedEnd));
    assert_eq!(parse("(f (g 1)"), Err(ParseError::UnexpectedEnd));
}

#[test]
fn parse_overlong_special_forms_are_rejected() {
    assert_eq!(parse("(if 1 2 3 4)"), Err(ParseError::UnexpectedToken));
    assert_eq!(parse("(define x 5 6)"), Err(ParseError::UnexpectedToken));
    assert_eq!(parse("(if 1 2 3 (f))"), Err(ParseError::UnexpectedToken));
}

#[test]
fn parse_lexer_errors_come_first() {
    assert_eq!(parse("(f 99999999999999999999)"), Err(ParseError::NumberOverflow));
    assert_eq!(parse("1 #"), Err(ParseError::InvalidCharacter));
    assert_eq!(parse(") #"), Err(ParseError::InvalidCharacter));
}

#[test]
fn parse_leaves() {
    assert_eq!(parse("42"), Ok(number_leaf(42, 0, 2)));
    assert_eq!(parse("  x ; trailing"), Ok(symbol_leaf("x", 2)));
    assert_eq!(parse("if"), Ok(symbol_leaf("if", 0)));
}

#[test]
fn parse_reads_one_expression_only() {
    assert_eq!(parse("1 2 3"), Ok(number_leaf(1, 0, 1)));
    assert_eq!(parse("x )"), Ok(symbol_leaf("x", 0)));
    assert_eq!(
        parse("(f) (g"),
        Ok(Expr::Call(open(0), symbol("f", 1), vec![], close(2)))
    );
}

#[test]
fn parse_define_takes_any_token_as_name() {
    assert_eq!(
        parse("(define 1 2)"),
        Ok(Expr::Define(
            open(0),
            symbol("define", 1),
            token(TokenKind::Number(1), 8, 9),
            Box::new(number_leaf(2, 10, 11)),
            close(11),
        ))
    );
    assert_eq!(
        parse("(define ( 2)"),
        Ok(Expr::Define(
            open(0),
            symbol("define", 1),
            open(8),
            Box::new(number_leaf(2, 10, 11)),
            close(11),
        ))
    );
}

#[test]
fn parse_nested_forms() {
    assert_eq!(
        parse("(define y (if (p x) 1 (g)))"),
        Ok(Expr::Define(
            open(0),
            symbol("define", 1),
            symbol("y", 8),
            Box::new(Expr::If(
                open(10),
                symbol("if", 11),
                Box::new(Expr::Call(
                    open(14),
                    symbol("p", 15),
                    vec![symbol_leaf("x", 17)],
                    close(18),
                )),
                Box::new(number_leaf(1, 20, 21)),
                Box::new(Expr::Call(open(22), symbol("g", 23), vec![], close(24))),
                close(25),
            )),
            close(26),
        ))
    );
}

#[test]
fn parse_keywords_are_exact() {
    assert_eq!(
        parse("(iff 1)"),
        Ok(Expr::Call(
            open(0),
            symbol("iff", 1),
            vec![number_leaf(1, 5, 6)],
            close(6),
        ))
    );
    assert_eq!(
        parse("(If 1)"),
        Ok(Expr::Call(
            open(0),
            symbol("If", 1),
            vec![number_leaf(1, 4, 5)],
            close(5),
        ))
    );
    assert_eq!(
        parse("(defin 1)"),
        Ok(Expr::Call(
            open(0),
            symbol("defin", 1),
            vec![number_leaf(1, 7, 8)],
            close(8),
        ))
    );
}

#[test]
fn state_advances_by_the_tokens_read() {
    let mut state = ParseState::new(tokenise("(f a) 7 )").unwrap());
    assert_eq!(state.tokens.len(), 6);
    assert!(state.parse_expr().is_ok());
    assert_eq!(state.pos, 4);
    assert_eq!(state.parse_expr(), Ok(number_leaf(7, 6, 7)));
    assert_eq!(state.pos, 5);
    assert_eq!(state.parse_expr(), Err(ParseError::UnexpectedToken));
    assert_eq!(state.pos, 5);
    state.pos = 6;
    assert_eq!(state.parse_expr(), Err(ParseError::UnexpectedEnd));
    assert_eq!(state.pos, 6);
}

#[test]
fn state_is_restored_on_failure() {
    let mut state = ParseState::new(tokenise("(f (g 1) (if 2 3")
        .unwrap());
    assert_eq!(state.parse_expr(), Err(ParseError::UnexpectedEnd));
    assert_eq!(state.pos, 0);
    state.pos = 2;
    assert_eq!(
        state.parse_expr(),
        Ok(Expr::Call(open(3), symbol("g", 4), vec![number_leaf(1, 6, 7)], close(7)))
    );
    assert_eq!(state.pos, 6);
}

#[test]
fn form_after_its_opening_bracket() {
    let tokens = tokenise("(define x 5)").unwrap();
    let opening = tokens[0].clone();
    let mut state = ParseState::new(tokens);
    state.pos = 1;
    assert_eq!(
        state.parse_form(opening),
        Ok(Expr::Define(
            open(0),
            symbol("define", 1),
            symbol("x", 8),
            Box::new(number_leaf(5, 10, 11)),
            close(11),
        ))
    );
    assert_eq!(state.pos, 5);

    let mut state = ParseState::new(tokenise("( 5 )").unwrap());
    state.pos = 1;
    assert_eq!(state.parse_form(open(0)), Err(ParseError::InvalidForm));
    assert_eq!(state.pos, 1);
}

#[test]
fn texts_compare_by_characters() {
    assert!(same_text("", ""));
    assert!(same_text("if", "if"));
    assert!(!same_text("if", "iff"));
    assert!(!same_text("iff", "if"));
    assert!(!same_text("if", "of"));
    assert!(!same_text("", "a"));
    assert!(same_text("d\u{e9}fine", "d\u{e9}fine"));
}

#[test]
fn form_kinds() {
    assert_eq!(form_kind_of(&symbol("if", 0)), Some(FormKind::If));
    assert_eq!(form_kind_of(&symbol("define", 0)), Some(FormKind::Define));
    assert_eq!(form_kind_of(&symbol("defined", 0)), Some(FormKind::Call));
    assert_eq!(form_kind_of(&symbol("+", 0)), Some(FormKind::Call));
    assert_eq!(form_kind_of(&token(TokenKind::Number(1), 0, 1)), None);
    assert_eq!(form_kind_of(&open(0)), None);
    assert_eq!(form_kind_of(&close(0)), None);
}

#[test]
fn clones_are_equal() {
    let t = symbol("abc", 3);
    assert_eq!(t.clone(), t);
    let n = token(TokenKind::Number(-4), 0, 2);
    assert_eq!(n.clone(), n);
}
