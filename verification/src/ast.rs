//! Tokens and the syntax tree, with the mathematical values that contracts speak of.

use crate::span::{span_end, span_start};
use codespan::Span;
use vstd::prelude::*;

verus! {

/// What a token is, apart from where it stands.
#[derive(Debug, PartialEq, Eq)]
pub enum TokenKind {
    LeftBracket,
    RightBracket,
    /// The value of a maximal run of digits.
    Number(i64),
    /// The text of a symbol.
    Symbol(String),
}

/// A token with the byte range of the source that it was read from.
#[derive(Debug, PartialEq, Eq)]
pub struct Token {
    pub kind: TokenKind,
    pub span: Span,
}

/// The syntax tree. Every node keeps the tokens that delimit it.
#[derive(Debug, PartialEq, Eq)]
pub enum Expr {
    /// A number, with its token and its value.
    Number(Token, i64),
    /// A symbol, with its token and its name.
    Symbol(Token, String),
    /// `(if condition then else)`: the opening bracket, the keyword, the three
    /// branches and the closing bracket.
    If(Token, Token, Box<Expr>, Box<Expr>, Box<Expr>, Token),
    /// `(define name value)`: the opening bracket, the keyword, the name token,
    /// the value and the closing bracket.
    Define(Token, Token, Token, Box<Expr>, Token),
    /// `(callee argument ...)`: the opening bracket, the callee, the arguments
    /// and the closing bracket.
    Call(Token, Token, Vec<Expr>, Token),
}

/// The mathematical value of a `TokenKind`.
pub enum TokenKindView {
    LeftBracket,
    RightBracket,
    Number(int),
    Symbol(Seq<char>),
}

/// The mathematical value of a `Token`: its kind and the half-open byte range
/// `[start, end)`.
pub struct TokenView {
    pub kind: TokenKindView,
    pub start: nat,
    pub end: nat,
}

/// The mathematical value of an `Expr`.
pub enum ExprView {
    Number(TokenView, int),
    Symbol(TokenView, Seq<char>),
    If(TokenView, TokenView, Box<ExprView>, Box<ExprView>, Box<ExprView>, TokenView),
    Define(TokenView, TokenView, TokenView, Box<ExprView>, TokenView),
    Call(TokenView, TokenView, Seq<ExprView>, TokenView),
}

impl View for TokenKind {
    type V = TokenKindView;

    open spec fn view(&self) -> TokenKindView {
        match self {
            TokenKind::LeftBracket => TokenKindView::LeftBracket,
            TokenKind::RightBracket => TokenKindView::RightBracket,
            TokenKind::Number(n) => TokenKindView::Number(*n as int),
            TokenKind::Symbol(s) => TokenKindView::Symbol(s@),
        }
    }
}

impl View for Token {
    type V = TokenView;

    open spec fn view(&self) -> TokenView {
        TokenView {
            kind: self.kind@,
            start: span_start(self.span) as nat,
            end: span_end(self.span) as nat,
        }
    }
}

impl Expr {
    /// The mathematical value of the tree, node by node.
    pub open spec fn model(&self) -> ExprView
        decreases self,
    {
        match self {
            Expr::Number(token, value) => ExprView::Number(token@, *value as int),
            Expr::Symbol(token, name) => ExprView::Symbol(token@, name@),
            Expr::If(open, keyword, condition, then_branch, else_branch, close) => ExprView::If(
                open@,
                keyword@,
                Box::new((**condition).model()),
                Box::new((**then_branch).model()),
                Box::new((**else_branch).model()),
                close@,
            ),
            Expr::Define(open, keyword, name, value, close) => ExprView::Define(
                open@,
                keyword@,
                name@,
                Box::new((**value).model()),
                close@,
            ),
            Expr::Call(open, callee, args, close) => ExprView::Call(
                open@,
                callee@,
                Seq::new(
                    args@.len(),
                    |i: int|
                        if 0 <= i < args@.len() {
                            args@[i].model()
                        } else {
                            arbitrary()
                        },
                ),
                close@,
            ),
        }
    }
}

impl View for Expr {
    type V = ExprView;

    open spec fn view(&self) -> ExprView {
        self.model()
    }
}

impl Clone for TokenKind {
    fn clone(&self) -> (copy: Self)
        ensures
            copy == *self,
    {
        match self {
            TokenKind::LeftBracket => TokenKind::LeftBracket,
            TokenKind::RightBracket => TokenKind::RightBracket,
            TokenKind::Number(n) => TokenKind::Number(*n),
            TokenKind::Symbol(s) => TokenKind::Symbol(s.clone()),
        }
    }
}

impl Clone for Token {
    fn clone(&self) -> (copy: Self)
        ensures
            copy == *self,
    {
        Token { kind: self.kind.clone(), span: self.span }
    }
}

impl Token {
    /// A token of the given kind at the given place.
    pub fn with_span(kind: TokenKind, span: Span) -> (token: Token)
        ensures
            token.kind == kind,
            token.span == span,
    {
        Token { kind, span }
    }
}

/// The values of a sequence of tokens, one for one.
pub open spec fn token_views(tokens: Seq<Token>) -> Seq<TokenView> {
    tokens.map_values(|t: Token| t@)
}

} // verus!
