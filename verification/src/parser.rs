//! The parser: from tokens to a syntax tree, by recursive descent with one
//! token of lookahead.

use crate::ast::{token_views, Expr, ExprView, Token, TokenKind, TokenKindView, TokenView};
use crate::error::{prepend, ParseError};
use crate::lexer::{lex, tokenise};
use vstd::prelude::*;
use vstd::std_specs::iter::IteratorSpec;
use vstd::string::StringSliceAdditionalSpecFns;

verus! {

/// The number of tokens that a tree was built from.
pub open spec fn extent(e: ExprView) -> nat
    decreases e,
{
    match e {
        ExprView::Number(_, _) => 1,
        ExprView::Symbol(_, _) => 1,
        ExprView::If(_, _, condition, then_branch, else_branch, _) => 3 + extent(*condition)
            + extent(*then_branch) + extent(*else_branch),
        ExprView::Define(_, _, _, value, _) => 4 + extent(*value),
        ExprView::Call(_, _, args, _) => 3 + extent_all(args),
    }
}

/// The number of tokens that a sequence of trees was built from.
pub open spec fn extent_all(es: Seq<ExprView>) -> nat
    decreases es,
{
    if es.len() == 0 {
        0
    } else {
        extent_all(es.drop_last()) + extent(es.last())
    }
}

/// How many tokens stand at `pos` and after it.
pub open spec fn tokens_left(ts: Seq<TokenView>, pos: int) -> nat {
    if 0 <= pos < ts.len() {
        (ts.len() - pos) as nat
    } else {
        0
    }
}

/// The closing bracket expected at `pos`.
pub open spec fn closing_at(ts: Seq<TokenView>, pos: int) -> Result<TokenView, ParseError> {
    if !(0 <= pos < ts.len()) {
        Err(ParseError::UnexpectedEnd)
    } else if ts[pos].kind is RightBracket {
        Ok(ts[pos])
    } else {
        Err(ParseError::UnexpectedToken)
    }
}

/// The expression that begins with the token at `pos`. It ends before the
/// token at `pos + extent(..)`.
pub open spec fn expr_at(ts: Seq<TokenView>, pos: int) -> Result<ExprView, ParseError>
    decreases tokens_left(ts, pos), 0nat,
{
    if !(0 <= pos < ts.len()) {
        Err(ParseError::UnexpectedEnd)
    } else {
        match ts[pos].kind {
            TokenKindView::LeftBracket => form_at(ts, ts[pos], pos + 1),
            TokenKindView::RightBracket => Err(ParseError::UnexpectedToken),
            TokenKindView::Number(value) => Ok(ExprView::Number(ts[pos], value)),
            TokenKindView::Symbol(name) => Ok(ExprView::Symbol(ts[pos], name)),
        }
    }
}

/// The three shapes of a form.
#[derive(Clone, Copy, Debug, PartialEq, Eq, Structural)]
pub enum FormKind {
    If,
    Define,
    Call,
}

/// The shape of the form that begins with a token of the given kind: that of
/// a special form for its keyword, a call for any other symbol, none for what
/// is no symbol.
pub open spec fn form_kind(head: TokenKindView) -> Option<FormKind> {
    match head {
        TokenKindView::Symbol(name) => if name == "if"@ {
            Some(FormKind::If)
        } else if name == "define"@ {
            Some(FormKind::Define)
        } else {
            Some(FormKind::Call)
        },
        _ => None,
    }
}

/// The form whose opening bracket `open` stands just before `pos`: the token
/// at `pos` must be a symbol, and it decides the shape.
pub open spec fn form_at(ts: Seq<TokenView>, open: TokenView, pos: int) -> Result<
    ExprView,
    ParseError,
>
    decreases tokens_left(ts, pos), 2nat,
{
    if !(0 <= pos < ts.len()) {
        Err(ParseError::InvalidForm)
    } else {
        match form_kind(ts[pos].kind) {
            None => Err(ParseError::InvalidForm),
            Some(FormKind::If) => if_at(ts, open, pos),
            Some(FormKind::Define) => define_at(ts, open, pos),
            Some(FormKind::Call) => call_at(ts, open, pos),
        }
    }
}

/// `(if condition then else)`, with the keyword at `pos`: three expressions
/// and the closing bracket.
pub open spec fn if_at(ts: Seq<TokenView>, open: TokenView, pos: int) -> Result<
    ExprView,
    ParseError,
>
    decreases tokens_left(ts, pos), 1nat,
    when 0 <= pos < ts.len()
{
    match expr_at(ts, pos + 1) {
        Err(e) => Err(e),
        Ok(condition) => {
            let after_condition = pos + 1 + extent(condition);
            match expr_at(ts, after_condition) {
                Err(e) => Err(e),
                Ok(then_branch) => {
                    let after_then = after_condition + extent(then_branch);
                    match expr_at(ts, after_then) {
                        Err(e) => Err(e),
                        Ok(else_branch) => match closing_at(ts, after_then + extent(else_branch)) {
                            Err(e) => Err(e),
                            Ok(close) => Ok(
                                ExprView::If(
                                    open,
                                    ts[pos],
                                    Box::new(condition),
                                    Box::new(then_branch),
                                    Box::new(else_branch),
                                    close,
                                ),
                            ),
                        },
                    }
                },
            }
        },
    }
}

/// `(define name value)`, with the keyword at `pos`: the next token, whatever
/// its kind, as the name, one expression and the closing bracket.
pub open spec fn define_at(ts: Seq<TokenView>, open: TokenView, pos: int) -> Result<
    ExprView,
    ParseError,
>
    decreases tokens_left(ts, pos), 1nat,
    when 0 <= pos < ts.len()
{
    if pos + 1 >= ts.len() {
        Err(ParseError::UnexpectedEnd)
    } else {
        match expr_at(ts, pos + 2) {
            Err(e) => Err(e),
            Ok(value) => match closing_at(ts, pos + 2 + extent(value)) {
                Err(e) => Err(e),
                Ok(close) => Ok(
                    ExprView::Define(open, ts[pos], ts[pos + 1], Box::new(value), close),
                ),
            },
        }
    }
}

/// `(callee argument ...)`, with the callee at `pos`: the arguments and the
/// closing bracket.
pub open spec fn call_at(ts: Seq<TokenView>, open: TokenView, pos: int) -> Result<
    ExprView,
    ParseError,
>
    decreases tokens_left(ts, pos), 1nat,
    when 0 <= pos < ts.len()
{
    match args_at(ts, pos + 1) {
        Err(e) => Err(e),
        Ok(args) => match closing_at(ts, pos + 1 + extent_all(args)) {
            Err(e) => Err(e),
            Ok(close) => Ok(ExprView::Call(open, ts[pos], args, close)),
        },
    }
}

/// The arguments of a call from `pos` on: the expressions up to the next
/// closing bracket at this level, or up to the end of the tokens.
pub open spec fn args_at(ts: Seq<TokenView>, pos: int) -> Result<Seq<ExprView>, ParseError>
    decreases tokens_left(ts, pos), 1nat,
{
    if !(0 <= pos < ts.len()) || ts[pos].kind is RightBracket {
        Ok(Seq::empty())
    } else {
        match expr_at(ts, pos) {
            Err(e) => Err(e),
            Ok(first) => match args_at(ts, pos + extent(first)) {
                Err(e) => Err(e),
                Ok(rest) => Ok(seq![first] + rest),
            },
        }
    }
}

/// The syntax tree of the source text `s`: that of the expression that begins
/// with its first token.
pub open spec fn parsed(s: Seq<char>) -> Result<ExprView, ParseError> {
    match lex(s) {
        Ok(ts) => expr_at(ts, 0),
        Err(e) => Err(e),
    }
}

/// Compares two texts character by character.
pub fn same_text(a: &str, b: &str) -> (same: bool)
    ensures
        same == (a@ == b@),
{
    let mut xs = a.chars();
    let mut ys = b.chars();
    let ghost mut i: int = 0;
    proof {
        assert(a@.skip(0) =~= a@);
        assert(b@.skip(0) =~= b@);
        assert(a@.take(0) =~= b@.take(0));
    }
    loop
        invariant
            0 <= i <= a@.len(),
            i <= b@.len(),
            xs.remaining() == a@.skip(i),
            ys.remaining() == b@.skip(i),
            a@.take(i) == b@.take(i),
        decreases a@.len() - i,
    {
        let x = xs.next();
        let y = ys.next();
        match (x, y) {
            (None, None) => {
                proof {
                    assert(a@.take(i) =~= a@);
                    assert(b@.take(i) =~= b@);
                }
                return true;
            },
            (Some(x), Some(y)) => {
                if x != y {
                    return false;
                }
                proof {
                    assert(a@.skip(i).drop_first() =~= a@.skip(i + 1));
                    assert(b@.skip(i).drop_first() =~= b@.skip(i + 1));
                    assert(a@.take(i + 1) =~= a@.take(i).push(a@[i]));
                    assert(b@.take(i + 1) =~= b@.take(i).push(b@[i]));
                    i = i + 1;
                }
            },
            _ => {
                return false;
            },
        }
    }
}

/// Decides the shape of a form from its first token.
pub fn form_kind_of(head: &Token) -> (kind: Option<FormKind>)
    ensures
        kind == form_kind(head@.kind),
{
    match &head.kind {
        TokenKind::Symbol(name) => {
            if same_text(name.as_str(), "if") {
                Some(FormKind::If)
            } else if same_text(name.as_str(), "define") {
                Some(FormKind::Define)
            } else {
                Some(FormKind::Call)
            }
        },
        _ => None,
    }
}

/// The state of a parse: the tokens and the index of the next one to read.
pub struct ParseState {
    pub tokens: Vec<Token>,
    pub pos: usize,
}

impl ParseState {
    /// The values of the tokens.
    pub open spec fn input(&self) -> Seq<TokenView> {
        token_views(self.tokens@)
    }

    /// A parse that stands before the first token.
    pub fn new(tokens: Vec<Token>) -> (state: ParseState)
        ensures
            state.tokens == tokens,
            state.pos == 0,
    {
        ParseState { tokens, pos: 0 }
    }

    /// Reads the closing bracket of a form.
    fn parse_close(&mut self) -> (result: Result<Token, ParseError>)
        ensures
            final(self).tokens == old(self).tokens,
            match result {
                Ok(close) => closing_at(old(self).input(), old(self).pos as int) == Ok::<
                    TokenView,
                    ParseError,
                >(close@) && final(self).pos == old(self).pos + 1,
                Err(e) => closing_at(old(self).input(), old(self).pos as int) == Err::<
                    TokenView,
                    ParseError,
                >(e) && final(self).pos == old(self).pos,
            },
    {
        if self.pos >= self.tokens.len() {
            return Err(ParseError::UnexpectedEnd);
        }
        let token = self.tokens[self.pos].clone();
        match token.kind {
            TokenKind::RightBracket => {
                self.pos = self.pos + 1;
                Ok(token)
            },
            _ => Err(ParseError::UnexpectedToken),
        }
    }

    /// Reads one expression, beginning with the next token.
    ///
    /// On success the state stands after the last token of the expression; on
    /// failure it is left as it was.
    pub fn parse_expr(&mut self) -> (result: Result<Expr, ParseError>)
        ensures
            final(self).tokens == old(self).tokens,
            match result {
                Ok(e) => expr_at(old(self).input(), old(self).pos as int) == Ok::<
                    ExprView,
                    ParseError,
                >(e@) && final(self).pos == old(self).pos + extent(e@),
                Err(err) => expr_at(old(self).input(), old(self).pos as int) == Err::<
                    ExprView,
                    ParseError,
                >(err) && final(self).pos == old(self).pos,
            },
        decreases tokens_left(old(self).input(), old(self).pos as int), 0nat,
    {
        let start = self.pos;
        if self.pos >= self.tokens.len() {
            return Err(ParseError::UnexpectedEnd);
        }
        let token = self.tokens[self.pos].clone();
        self.pos = self.pos + 1;
        match &token.kind {
            TokenKind::LeftBracket => {
                let result = self.parse_form(token);
                if result.is_err() {
                    self.pos = start;
                }
                result
            },
            TokenKind::RightBracket => {
                self.pos = start;
                Err(ParseError::UnexpectedToken)
            },
            TokenKind::Number(value) => {
                let value = *value;
                Ok(Expr::Number(token, value))
            },
            TokenKind::Symbol(name) => {
                let name = name.clone();
                Ok(Expr::Symbol(token, name))
            },
        }
    }

    /// Reads the rest of a form whose opening bracket `open` has been read.
    ///
    /// On success the state stands after the closing bracket of the form; on
    /// failure it is left as it was.
    pub fn parse_form(&mut self, open: Token) -> (result: Result<Expr, ParseError>)
        ensures
            final(self).tokens == old(self).tokens,
            match result {
                Ok(e) => form_at(old(self).input(), open@, old(self).pos as int) == Ok::<
                    ExprView,
                    ParseError,
                >(e@) && final(self).pos + 1 == old(self).pos + extent(e@),
                Err(err) => form_at(old(self).input(), open@, old(self).pos as int) == Err::<
                    ExprView,
                    ParseError,
                >(err) && final(self).pos == old(self).pos,
            },
        decreases tokens_left(old(self).input(), old(self).pos as int), 2nat,
    {
        let start = self.pos;
        let ghost ts = self.input();
        if self.pos >= self.tokens.len() {
            return Err(ParseError::InvalidForm);
        }
        let head = self.tokens[self.pos].clone();
        let kind = match form_kind_of(&head) {
            Some(kind) => kind,
            None => {
                return Err(ParseError::InvalidForm);
            },
        };
        self.pos = self.pos + 1;
        match kind {
            FormKind::If => {
                let condition = match self.parse_expr() {
                    Ok(e) => e,
                    Err(e) => {
                        self.pos = start;
                        return Err(e);
                    },
                };
                let then_branch = match self.parse_expr() {
                    Ok(e) => e,
                    Err(e) => {
                        self.pos = start;
                        return Err(e);
                    },
                };
                let else_branch = match self.parse_expr() {
                    Ok(e) => e,
                    Err(e) => {
                        self.pos = start;
                        return Err(e);
                    },
                };
                let close = match self.parse_close() {
                    Ok(token) => token,
                    Err(e) => {
                        self.pos = start;
                        return Err(e);
                    },
                };
                Ok(
                    Expr::If(
                        open,
                        head,
                        Box::new(condition),
                        Box::new(then_branch),
                        Box::new(else_branch),
                        close,
                    ),
                )
            },
            FormKind::Define => {
                if self.pos >= self.tokens.len() {
                    self.pos = start;
                    return Err(ParseError::UnexpectedEnd);
                }
                let name = self.tokens[self.pos].clone();
                self.pos = self.pos + 1;
                let value = match self.parse_expr() {
                    Ok(e) => e,
                    Err(e) => {
                        self.pos = start;
                        return Err(e);
                    },
                };
                let close = match self.parse_close() {
                    Ok(token) => token,
                    Err(e) => {
                        self.pos = start;
                        return Err(e);
                    },
                };
                Ok(Expr::Define(open, head, name, Box::new(value), close))
            },
            FormKind::Call => {
                let mut args: Vec<Expr> = Vec::new();
                let ghost mut arg_views: Seq<ExprView> = Seq::empty();
                proof {
                    assert(arg_views + args_at(ts, start + 1)->Ok_0 =~= args_at(
                        ts,
                        start + 1,
                    )->Ok_0);
                }
                loop
                    invariant
                        ts == self.input(),
                        self.tokens == old(self).tokens,
                        start == old(self).pos,
                        start < self.tokens.len(),
                        form_kind(ts[start as int].kind) == Some(FormKind::Call),
                        self.pos == start + 1 + extent_all(arg_views),
                        args@.len() == arg_views.len(),
                        forall|k: int|
                            0 <= k < arg_views.len() ==> (#[trigger] args@[k])@ == arg_views[k],
                        args_at(ts, start + 1) == prepend(arg_views, args_at(ts, self.pos as int)),
                    ensures
                        args_at(ts, start + 1) == Ok::<Seq<ExprView>, ParseError>(arg_views),
                    decreases tokens_left(ts, self.pos as int),
                {
                    if self.pos >= self.tokens.len() {
                        proof {
                            assert(arg_views + Seq::<ExprView>::empty() =~= arg_views);
                        }
                        break ;
                    }
                    if let TokenKind::RightBracket = self.tokens[self.pos].kind {
                        proof {
                            assert(arg_views + Seq::<ExprView>::empty() =~= arg_views);
                        }
                        break ;
                    }
                    let ghost before = self.pos as int;
                    match self.parse_expr() {
                        Ok(e) => {
                            proof {
                                let rest = args_at(ts, before + extent(e@));
                                assert(arg_views.push(e@).drop_last() =~= arg_views);
                                if rest is Ok {
                                    assert(arg_views + (seq![e@] + rest->Ok_0) =~= arg_views.push(
                                        e@,
                                    ) + rest->Ok_0);
                                }
                                arg_views = arg_views.push(e@);
                            }
                            args.push(e);
                        },
                        Err(e) => {
                            assert(args_at(ts, before) == Err::<Seq<ExprView>, ParseError>(e));
                            self.pos = start;
                            return Err(e);
                        },
                    }
                }
                let close = match self.parse_close() {
                    Ok(token) => token,
                    Err(e) => {
                        self.pos = start;
                        return Err(e);
                    },
                };
                let call = Expr::Call(open, head, args, close);
                proof {
                    assert(call@->Call_2 =~= arg_views);
                }
                Ok(call)
            },
        }
    }
}

/// Reads the first expression of a source text.
///
/// The whole text is cut into tokens first, so an error of the lexer comes
/// before any of the parser. Tokens that follow the expression are not read.
/// The source may be `u32::MAX` bytes long at most.
pub fn parse(source: &str) -> (result: Result<Expr, ParseError>)
    requires
        source.spec_bytes().len() <= u32::MAX,
    ensures
        match result {
            Ok(e) => parsed(source@) == Ok::<ExprView, ParseError>(e@),
            Err(err) => parsed(source@) == Err::<ExprView, ParseError>(err),
        },
{
    let tokens = tokenise(source)?;
    ParseState::new(tokens).parse_expr()
}

} // verus!
