//! The character classes that the lexer tells apart.

use vstd::prelude::*;

verus! {

/// The kinds of run that the lexer scans. A run is a maximal stretch of
/// characters of one kind.
#[derive(Clone, Copy, Debug, PartialEq, Eq, Structural)]
pub enum RunKind {
    LeftBracket,
    RightBracket,
    Number,
    Symbol,
    Whitespace,
    Comment,
}

/// An ASCII decimal digit.
pub open spec fn is_digit(c: char) -> bool {
    '0' <= c <= '9'
}

/// The punctuation that may stand anywhere in a symbol.
pub open spec fn is_symbol_punctuation(c: char) -> bool {
    c == '!' || c == '%' || c == '&' || c == '*' || c == '+' || c == '-' || c == '.' || c == '/'
        || c == ':' || c == '<' || c == '=' || c == '>' || c == '?' || c == '@' || c == '$'
        || c == '^'
}

/// A character that may begin a symbol: an ASCII letter or symbol punctuation.
pub open spec fn is_symbol_start(c: char) -> bool {
    'a' <= c <= 'z' || 'A' <= c <= 'Z' || is_symbol_punctuation(c)
}

/// A character that may continue a symbol.
pub open spec fn is_symbol_part(c: char) -> bool {
    is_symbol_start(c) || is_digit(c)
}

/// The code points that carry the Unicode property `White_Space`.
pub open spec fn is_whitespace(c: char) -> bool {
    '\u{9}' <= c <= '\u{d}' || c == ' ' || c == '\u{85}' || c == '\u{a0}' || c == '\u{1680}'
        || '\u{2000}' <= c <= '\u{200a}' || c == '\u{2028}' || c == '\u{2029}' || c == '\u{202f}'
        || c == '\u{205f}' || c == '\u{3000}'
}

/// A carriage return or a line feed: what ends a comment.
pub open spec fn is_line_end(c: char) -> bool {
    c == '\r' || c == '\n'
}

/// The kind of run that `c` opens, if it opens one.
pub open spec fn opening(c: char) -> Option<RunKind> {
    if c == '(' {
        Some(RunKind::LeftBracket)
    } else if c == ')' {
        Some(RunKind::RightBracket)
    } else if is_digit(c) {
        Some(RunKind::Number)
    } else if is_symbol_start(c) {
        Some(RunKind::Symbol)
    } else if c == ';' {
        Some(RunKind::Comment)
    } else if is_whitespace(c) {
        Some(RunKind::Whitespace)
    } else {
        None
    }
}

/// Whether `c` continues a run of `kind` that has already begun.
pub open spec fn extends(kind: RunKind, c: char) -> bool {
    match kind {
        RunKind::LeftBracket | RunKind::RightBracket => false,
        RunKind::Number => is_digit(c),
        RunKind::Symbol => is_symbol_part(c),
        RunKind::Whitespace => is_whitespace(c),
        RunKind::Comment => !is_line_end(c),
    }
}

pub fn char_is_digit(c: char) -> (b: bool)
    ensures
        b == is_digit(c),
{
    '0' <= c && c <= '9'
}

pub fn char_is_symbol_start(c: char) -> (b: bool)
    ensures
        b == is_symbol_start(c),
{
    ('a' <= c && c <= 'z') || ('A' <= c && c <= 'Z') || c == '!' || c == '%' || c == '&' || c
        == '*' || c == '+' || c == '-' || c == '.' || c == '/' || c == ':' || c == '<' || c == '='
        || c == '>' || c == '?' || c == '@' || c == '$' || c == '^'
}

pub fn char_is_whitespace(c: char) -> (b: bool)
    ensures
        b == is_whitespace(c),
{
    ('\u{9}' <= c && c <= '\u{d}') || c == ' ' || c == '\u{85}' || c == '\u{a0}' || c
        == '\u{1680}' || ('\u{2000}' <= c && c <= '\u{200a}') || c == '\u{2028}' || c
        == '\u{2029}' || c == '\u{202f}' || c == '\u{205f}' || c == '\u{3000}'
}

/// Classifies the first character of a run.
pub fn run_opened_by(c: char) -> (kind: Option<RunKind>)
    ensures
        kind == opening(c),
{
    if c == '(' {
        Some(RunKind::LeftBracket)
    } else if c == ')' {
        Some(RunKind::RightBracket)
    } else if char_is_digit(c) {
        Some(RunKind::Number)
    } else if char_is_symbol_start(c) {
        Some(RunKind::Symbol)
    } else if c == ';' {
        Some(RunKind::Comment)
    } else if char_is_whitespace(c) {
        Some(RunKind::Whitespace)
    } else {
        None
    }
}

/// Decides whether a run of `kind` goes on with `c`.
pub fn run_extended_by(kind: RunKind, c: char) -> (b: bool)
    ensures
        b == extends(kind, c),
{
    match kind {
        RunKind::LeftBracket | RunKind::RightBracket => false,
        RunKind::Number => char_is_digit(c),
        RunKind::Symbol => char_is_symbol_start(c) || char_is_digit(c),
        RunKind::Whitespace => char_is_whitespace(c),
        RunKind::Comment => !(c == '\r' || c == '\n'),
    }
}

} // verus!
