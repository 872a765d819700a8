//! What holds of every token sequence: facts about the parser, proved from
//! its definition.

use crate::ast::{ExprView, TokenKindView, TokenView};
use crate::parser::{args_at, closing_at, expr_at, extent, extent_all, form_at, tokens_left};
use vstd::prelude::*;

verus! {

/// The tokens that a tree keeps, in source order.
pub open spec fn tokens_of(e: ExprView) -> Seq<TokenView>
    decreases e,
{
    match e {
        ExprView::Number(token, _) => seq![token],
        ExprView::Symbol(token, _) => seq![token],
        ExprView::If(open, keyword, condition, then_branch, else_branch, close) => seq![
            open,
            keyword,
        ] + tokens_of(*condition) + tokens_of(*then_branch) + tokens_of(*else_branch) + seq![
            close,
        ],
        ExprView::Define(open, keyword, name, value, close) => seq![open, keyword, name]
            + tokens_of(*value) + seq![close],
        ExprView::Call(open, callee, args, close) => seq![open, callee] + tokens_of_all(args)
            + seq![close],
    }
}

/// The tokens that a sequence of trees keeps, in source order.
pub open spec fn tokens_of_all(es: Seq<ExprView>) -> Seq<TokenView>
    decreases es,
{
    if es.len() == 0 {
        Seq::empty()
    } else {
        tokens_of_all(es.drop_last()) + tokens_of(es.last())
    }
}

/// Extents and kept tokens of a sequence add up from the front as from the back.
proof fn lemma_all_from_front(first: ExprView, rest: Seq<ExprView>)
    ensures
        extent_all(seq![first] + rest) == extent(first) + extent_all(rest),
        tokens_of_all(seq![first] + rest) == tokens_of(first) + tokens_of_all(rest),
    decreases rest.len(),
{
    let all = seq![first] + rest;
    if rest.len() == 0 {
        assert(all.drop_last() =~= Seq::<ExprView>::empty());
        assert(all.last() == first);
        assert(extent_all(all.drop_last()) == 0);
        assert(tokens_of_all(all.drop_last()) =~= Seq::<TokenView>::empty());
        assert(tokens_of_all(all) =~= tokens_of(first) + tokens_of_all(rest));
    } else {
        lemma_all_from_front(first, rest.drop_last());
        assert(all.drop_last() =~= seq![first] + rest.drop_last());
        assert(all.last() == rest.last());
        assert(tokens_of_all(all) =~= tokens_of(first) + tokens_of_all(rest));
    }
}

/// An expression that was read lies within the tokens, and the tokens that its
/// tree keeps are the tokens that it was read from, in their order.
pub proof fn lemma_expr_keeps_its_tokens(ts: Seq<TokenView>, pos: int)
    requires
        expr_at(ts, pos) is Ok,
    ensures
        0 <= pos,
        pos + extent(expr_at(ts, pos)->Ok_0) <= ts.len(),
        tokens_of(expr_at(ts, pos)->Ok_0) == ts.subrange(
            pos,
            pos + extent(expr_at(ts, pos)->Ok_0),
        ),
    decreases tokens_left(ts, pos), 0nat,
{
    let e = expr_at(ts, pos)->Ok_0;
    match ts[pos].kind {
        TokenKindView::LeftBracket => {
            lemma_form_keeps_its_tokens(ts, ts[pos], pos + 1);
            assert(tokens_of(e) =~= ts.subrange(pos, pos + extent(e)));
        },
        _ => {
            assert(tokens_of(e) =~= ts.subrange(pos, pos + extent(e)));
        },
    }
}

/// The same of a form, whose opening bracket stands before `pos`.
pub proof fn lemma_form_keeps_its_tokens(ts: Seq<TokenView>, open: TokenView, pos: int)
    requires
        form_at(ts, open, pos) is Ok,
    ensures
        0 <= pos,
        pos - 1 + extent(form_at(ts, open, pos)->Ok_0) <= ts.len(),
        tokens_of(form_at(ts, open, pos)->Ok_0) == seq![open] + ts.subrange(
            pos,
            pos - 1 + extent(form_at(ts, open, pos)->Ok_0),
        ),
    decreases tokens_left(ts, pos), 2nat,
{
    let e = form_at(ts, open, pos)->Ok_0;
    let end = pos - 1 + extent(e);
    match e {
        ExprView::If(_, _, condition, then_branch, else_branch, _) => {
            let after_condition = pos + 1 + extent(*condition);
            let after_then = after_condition + extent(*then_branch);
            let after_else = after_then + extent(*else_branch);
            lemma_expr_keeps_its_tokens(ts, pos + 1);
            lemma_expr_keeps_its_tokens(ts, after_condition);
            lemma_expr_keeps_its_tokens(ts, after_then);
            assert(closing_at(ts, after_else) is Ok);
            assert(tokens_of(e) =~= seq![open] + ts.subrange(pos, end));
        },
        ExprView::Define(_, _, _, value, _) => {
            lemma_expr_keeps_its_tokens(ts, pos + 2);
            assert(closing_at(ts, pos + 2 + extent(*value)) is Ok);
            assert(tokens_of(e) =~= seq![open] + ts.subrange(pos, end));
        },
        ExprView::Call(_, _, args, _) => {
            lemma_args_keep_their_tokens(ts, pos + 1);
            assert(closing_at(ts, pos + 1 + extent_all(args)) is Ok);
            assert(tokens_of(e) =~= seq![open] + ts.subrange(pos, end));
        },
        _ => {},
    }
}

/// The same of the arguments of a call, which end before a closing bracket or
/// with the tokens.
pub proof fn lemma_args_keep_their_tokens(ts: Seq<TokenView>, pos: int)
    requires
        0 <= pos <= ts.len(),
        args_at(ts, pos) is Ok,
    ensures
        pos + extent_all(args_at(ts, pos)->Ok_0) <= ts.len(),
        tokens_of_all(args_at(ts, pos)->Ok_0) == ts.subrange(
            pos,
            pos + extent_all(args_at(ts, pos)->Ok_0),
        ),
        pos + extent_all(args_at(ts, pos)->Ok_0) < ts.len() ==> ts[pos + extent_all(
            args_at(ts, pos)->Ok_0,
        )].kind is RightBracket,
    decreases tokens_left(ts, pos), 1nat,
{
    let args = args_at(ts, pos)->Ok_0;
    if pos < ts.len() && !(ts[pos].kind is RightBracket) {
        let first = expr_at(ts, pos)->Ok_0;
        let next = pos + extent(first);
        let rest = args_at(ts, next)->Ok_0;
        lemma_expr_keeps_its_tokens(ts, pos);
        lemma_args_keep_their_tokens(ts, next);
        lemma_all_from_front(first, rest);
        assert(tokens_of_all(args) =~= ts.subrange(pos, pos + extent_all(args)));
    } else {
        assert(tokens_of_all(args) =~= ts.subrange(pos, pos + extent_all(args)));
    }
}

} // verus!
