//! What holds of every source text: facts about the lexer, proved from its
//! definition.

use crate::ast::{TokenKindView, TokenView};
use crate::chars::{
    extends, is_digit, is_line_end, is_symbol_part, is_symbol_start, is_whitespace, opening,
    RunKind,
};
use crate::error::ParseError;
use crate::lexer::{
    decimal_value, lemma_run_end, lex, locate, run_end, run_token, scan_from, Lexeme,
};
use crate::offsets::{lemma_bytes_between, lemma_offset_monotonic, lemma_text_between};
use vstd::prelude::*;
use vstd::utf8::*;

verus! {

/// Whether `text` is a way to write a token of the given kind: a single
/// bracket, a non-empty run of digits with the token's value, or the name of
/// the symbol, which begins as a symbol may begin and goes on as one may go on.
pub open spec fn spells(text: Seq<char>, kind: TokenKindView) -> bool {
    match kind {
        TokenKindView::LeftBracket => text == seq!['('],
        TokenKindView::RightBracket => text == seq![')'],
        TokenKindView::Number(value) => {
            &&& text.len() > 0
            &&& forall|k: int| 0 <= k < text.len() ==> is_digit(#[trigger] text[k])
            &&& decimal_value(text) == value
            &&& value <= i64::MAX
        },
        TokenKindView::Symbol(name) => {
            &&& text == name
            &&& text.len() > 0
            &&& is_symbol_start(text[0])
            &&& forall|k: int| 0 <= k < text.len() ==> is_symbol_part(#[trigger] text[k])
        },
    }
}

/// The text that the bytes of the source from `start` up to `end` hold.
pub open spec fn source_text(s: Seq<char>, start: int, end: int) -> Seq<char> {
    decode_utf8(encode_utf8(s).subrange(start, end))
}

/// A run whose every further character extends it ends where the text ends.
proof fn lemma_run_to_the_end(s: Seq<char>, kind: RunKind, i: int)
    requires
        0 <= i <= s.len(),
        forall|k: int| i <= k < s.len() ==> extends(kind, #[trigger] s[k]),
    ensures
        run_end(s, kind, i) == s.len(),
    decreases s.len() - i,
{
    if i < s.len() {
        assert(extends(kind, s[i]));
        lemma_run_to_the_end(s, kind, i + 1);
    }
}

/// Every lexeme found from index `i` on lies within the text at or after `i`,
/// is spelt by the characters that it covers, and ends before the next begins.
pub proof fn lemma_lexemes(s: Seq<char>, i: int)
    requires
        0 <= i <= s.len(),
        scan_from(s, i) is Ok,
    ensures
        forall|k: int|
            0 <= k < scan_from(s, i)->Ok_0.len() ==> {
                let l = #[trigger] scan_from(s, i)->Ok_0[k];
                &&& i <= l.lo < l.hi <= s.len()
                &&& spells(s.subrange(l.lo, l.hi), l.kind)
            },
        forall|a: int, b: int|
            0 <= a < b < scan_from(s, i)->Ok_0.len() ==> (#[trigger] scan_from(s, i)->Ok_0[a]).hi
                <= (#[trigger] scan_from(s, i)->Ok_0[b]).lo,
    decreases s.len() - i,
{
    if i < s.len() {
        let kind = opening(s[i])->0;
        let j = run_end(s, kind, i + 1);
        lemma_run_end(s, kind, i + 1);
        let text = s.subrange(i, j);
        let rest = scan_from(s, j)->Ok_0;
        lemma_lexemes(s, j);
        match run_token(kind, text) {
            None => {},
            Some(found) => {
                let first = Lexeme { kind: found->Ok_0, lo: i, hi: j };
                let all = scan_from(s, i)->Ok_0;
                assert(all == seq![first] + rest);
                assert(spells(text, first.kind)) by {
                    assert forall|k: int| 0 <= k < text.len() implies extends(kind, text[k])
                        || k == 0 by {
                        if k > 0 {
                            assert(text[k] == s[i + k]);
                        }
                    }
                    if kind == RunKind::LeftBracket {
                        assert(text =~= seq!['(']);
                    }
                    if kind == RunKind::RightBracket {
                        assert(text =~= seq![')']);
                    }
                }
                assert forall|k: int| 0 <= k < all.len() implies {
                    let l = #[trigger] all[k];
                    &&& i <= l.lo < l.hi <= s.len()
                    &&& spells(s.subrange(l.lo, l.hi), l.kind)
                } by {
                    if k > 0 {
                        assert(all[k] == rest[k - 1]);
                    }
                }
                assert forall|a: int, b: int| 0 <= a < b < all.len() implies (#[trigger] all[a]).hi
                    <= (#[trigger] all[b]).lo by {
                    assert(all[b] == rest[b - 1]);
                    if a > 0 {
                        assert(all[a] == rest[a - 1]);
                    }
                }
            },
        }
    }
}

/// A text that spells a token, lexed by itself, gives that one token, from
/// its first byte to its last.
pub proof fn lemma_spelling_lexes_alone(text: Seq<char>, kind: TokenKindView)
    requires
        spells(text, kind),
    ensures
        scan_from(text, 0) == Ok::<Seq<Lexeme>, ParseError>(
            seq![Lexeme { kind: kind, lo: 0, hi: text.len() as int }],
        ),
        lex(text) == Ok::<Seq<TokenView>, ParseError>(
            seq![TokenView { kind: kind, start: 0, end: encode_utf8(text).len() }],
        ),
{
    let n = text.len() as int;
    let run = opening(text[0])->0;
    assert(text.subrange(0, n) =~= text);
    match kind {
        TokenKindView::LeftBracket => {},
        TokenKindView::RightBracket => {},
        TokenKindView::Number(_) => {
            assert(is_digit(text[0]));
            assert forall|k: int| 1 <= k < n implies extends(run, #[trigger] text[k]) by {
                assert(is_digit(text[k]));
            }
        },
        TokenKindView::Symbol(_) => {
            assert forall|k: int| 1 <= k < n implies extends(run, #[trigger] text[k]) by {
                assert(is_symbol_part(text[k]));
            }
        },
    }
    lemma_run_to_the_end(text, run, 1);
    let lexeme = Lexeme { kind: kind, lo: 0, hi: n };
    assert(seq![lexeme] + Seq::<Lexeme>::empty() =~= seq![lexeme]);
    assert(scan_from(text, n) == Ok::<Seq<Lexeme>, ParseError>(Seq::empty()));
    assert(scan_from(text, 0) == Ok::<Seq<Lexeme>, ParseError>(seq![lexeme]));
    assert(text.take(0) =~= Seq::<char>::empty());
    assert(text.take(n) =~= text);
    assert(seq![lexeme].map_values(|l: Lexeme| locate(text, l)) =~= seq![
        TokenView { kind: kind, start: 0, end: encode_utf8(text).len() },
    ]);
}

/// The span of every token lies within the source and is not empty, and the
/// bytes that it covers spell the token.
pub proof fn lemma_span_spells_token(s: Seq<char>, k: int)
    requires
        lex(s) is Ok,
        0 <= k < lex(s)->Ok_0.len(),
    ensures
        lex(s)->Ok_0[k].start < lex(s)->Ok_0[k].end <= encode_utf8(s).len(),
        spells(
            source_text(s, lex(s)->Ok_0[k].start as int, lex(s)->Ok_0[k].end as int),
            lex(s)->Ok_0[k].kind,
        ),
{
    lemma_lexemes(s, 0);
    let l = scan_from(s, 0)->Ok_0[k];
    lemma_offset_monotonic(s, l.lo, l.hi);
    lemma_text_between(s, l.lo, l.hi);
}

/// The spans of the tokens come in source order and do not overlap.
pub proof fn lemma_spans_in_order(s: Seq<char>, a: int, b: int)
    requires
        lex(s) is Ok,
        0 <= a < b < lex(s)->Ok_0.len(),
    ensures
        lex(s)->Ok_0[a].start < lex(s)->Ok_0[a].end <= lex(s)->Ok_0[b].start < lex(s)->Ok_0[b].end,
{
    lemma_lexemes(s, 0);
    let x = scan_from(s, 0)->Ok_0[a];
    let y = scan_from(s, 0)->Ok_0[b];
    lemma_offset_monotonic(s, x.lo, x.hi);
    lemma_offset_monotonic(s, x.hi, y.lo);
    lemma_offset_monotonic(s, y.lo, y.hi);
}

/// The text under the span of a token, lexed by itself, gives one token of
/// the same kind, whose span is the whole of that text.
pub proof fn lemma_token_text_lexes_alone(s: Seq<char>, k: int)
    requires
        lex(s) is Ok,
        0 <= k < lex(s)->Ok_0.len(),
    ensures
        lex(source_text(s, lex(s)->Ok_0[k].start as int, lex(s)->Ok_0[k].end as int)) == Ok::<
            Seq<TokenView>,
            ParseError,
        >(
            seq![
                TokenView {
                    kind: lex(s)->Ok_0[k].kind,
                    start: 0,
                    end: (lex(s)->Ok_0[k].end - lex(s)->Ok_0[k].start) as nat,
                },
            ],
        ),
{
    lemma_lexemes(s, 0);
    let l = scan_from(s, 0)->Ok_0[k];
    lemma_text_between(s, l.lo, l.hi);
    lemma_bytes_between(s, l.lo, l.hi);
    lemma_spelling_lexes_alone(s.subrange(l.lo, l.hi), l.kind);
}

/// A non-empty text of digits whose value fits an `i64` is one number token
/// with that value, from the first byte to the last.
pub proof fn lemma_digits_are_one_number(s: Seq<char>)
    requires
        s.len() > 0,
        forall|k: int| 0 <= k < s.len() ==> is_digit(#[trigger] s[k]),
        decimal_value(s) <= i64::MAX,
    ensures
        lex(s) == Ok::<Seq<TokenView>, ParseError>(
            seq![
                TokenView {
                    kind: TokenKindView::Number(decimal_value(s) as int),
                    start: 0,
                    end: s.len(),
                },
            ],
        ),
{
    lemma_spelling_lexes_alone(s, TokenKindView::Number(decimal_value(s) as int));
    assert(is_ascii_chars(s)) by {
        assert forall|k: int| 0 <= k < s.len() implies '\0' <= #[trigger] s[k] <= '\u{7f}' by {
            assert(is_digit(s[k]));
        }
    }
    is_ascii_chars_encode_utf8(s);
}

/// A non-empty text of digits whose value does not fit an `i64` is rejected.
pub proof fn lemma_digits_overflow(s: Seq<char>)
    requires
        s.len() > 0,
        forall|k: int| 0 <= k < s.len() ==> is_digit(#[trigger] s[k]),
        decimal_value(s) > i64::MAX,
    ensures
        lex(s) == Err::<Seq<TokenView>, ParseError>(ParseError::NumberOverflow),
{
    assert(is_digit(s[0]));
    assert forall|k: int| 1 <= k < s.len() implies extends(RunKind::Number, #[trigger] s[k]) by {
        assert(is_digit(s[k]));
    }
    lemma_run_to_the_end(s, RunKind::Number, 1);
    assert(s.subrange(0, s.len() as int) =~= s);
}

/// From the `;` at `from`, no line ends up to and including `to`.
pub open spec fn comment_runs(s: Seq<char>, from: int, to: int) -> bool {
    &&& 0 <= from <= to < s.len()
    &&& s[from] == ';'
    &&& forall|k: int| from < k <= to ==> !is_line_end(#[trigger] s[k])
}

/// The character at `i` belongs to a comment: a `;` stands at or before it,
/// with no line end after that `;` up to and including `i`.
pub open spec fn in_comment(s: Seq<char>, i: int) -> bool {
    exists|from: int| #[trigger] comment_runs(s, from, i)
}

/// The text consists of whitespace and comments only.
pub open spec fn is_blank(s: Seq<char>) -> bool {
    forall|i: int| 0 <= i < s.len() ==> is_whitespace(s[i]) || #[trigger] in_comment(s, i)
}

/// A line ends after `from`, at `to` or before it.
spec fn line_ends(s: Seq<char>, from: int, to: int) -> bool {
    exists|k: int| from < k <= to && k < s.len() && is_line_end(#[trigger] s[k])
}

/// Every comment that begins before `p` has ended at `p` or before it.
spec fn comments_closed(s: Seq<char>, p: int) -> bool {
    forall|from: int| 0 <= from < p && s[from] == ';' ==> #[trigger] line_ends(s, from, p)
}

/// Whitespace opens a whitespace run, and a `;` a comment.
proof fn lemma_blank_classes(c: char)
    ensures
        is_whitespace(c) ==> opening(c) == Some(RunKind::Whitespace) && c != ';',
        c == ';' ==> opening(c) == Some(RunKind::Comment),
{
}

/// A line that ends at `to` or before it ends at `later` or before it.
proof fn lemma_line_ends_later(s: Seq<char>, from: int, to: int, later: int)
    requires
        line_ends(s, from, to),
        to <= later,
    ensures
        line_ends(s, from, later),
{
    let k = choose|k: int| from < k <= to && k < s.len() && is_line_end(#[trigger] s[k]);
    assert(from < k <= later && k < s.len() && is_line_end(s[k]));
}

/// A comment that runs up to `to` has no line end up to `to`.
proof fn lemma_comment_has_no_line_end(s: Seq<char>, from: int, to: int)
    requires
        comment_runs(s, from, to),
    ensures
        !line_ends(s, from, to),
{
    if line_ends(s, from, to) {
        let k = choose|k: int| from < k <= to && k < s.len() && is_line_end(#[trigger] s[k]);
        assert(!is_line_end(s[k]));
    }
}

/// The run that begins at `p` in a blank text whose earlier comments have
/// ended is passed over, and the comments before its end have ended there.
proof fn lemma_blank_step(s: Seq<char>, p: int) -> (q: int)
    requires
        is_blank(s),
        0 <= p < s.len(),
        comments_closed(s, p),
    ensures
        p < q <= s.len(),
        scan_from(s, p) == scan_from(s, q),
        q < s.len() ==> comments_closed(s, q),
{
    lemma_blank_classes(s[p]);
    if is_whitespace(s[p]) {
        let q = run_end(s, RunKind::Whitespace, p + 1);
        lemma_run_end(s, RunKind::Whitespace, p + 1);
        assert forall|from: int| 0 <= from < q && s[from] == ';' implies #[trigger] line_ends(
            s,
            from,
            q,
        ) by {
            if from > p {
                assert(extends(RunKind::Whitespace, s[from]));
                lemma_blank_classes(s[from]);
            } else {
                assert(line_ends(s, from, p));
                lemma_line_ends_later(s, from, p, q);
            }
        }
        q
    } else {
        assert(in_comment(s, p));
        let from = choose|from: int| #[trigger] comment_runs(s, from, p);
        lemma_comment_has_no_line_end(s, from, p);
        if from < p {
            assert(line_ends(s, from, p));
        }
        let q = run_end(s, RunKind::Comment, p + 1);
        lemma_run_end(s, RunKind::Comment, p + 1);
        if q < s.len() {
            assert forall|from: int| 0 <= from < q && s[from] == ';' implies #[trigger] line_ends(
                s,
                from,
                q,
            ) by {
                assert(from < q <= q && q < s.len() && is_line_end(s[q]));
            }
        }
        q
    }
}

proof fn lemma_blank_from(s: Seq<char>, p: int)
    requires
        is_blank(s),
        0 <= p <= s.len(),
        p < s.len() ==> comments_closed(s, p),
    ensures
        scan_from(s, p) == Ok::<Seq<Lexeme>, ParseError>(Seq::empty()),
    decreases s.len() - p,
{
    if p < s.len() {
        let q = lemma_blank_step(s, p);
        lemma_blank_from(s, q);
    }
}

/// A text of whitespace and comments only has no tokens.
pub proof fn lemma_blank_has_no_tokens(s: Seq<char>)
    requires
        is_blank(s),
    ensures
        lex(s) == Ok::<Seq<TokenView>, ParseError>(Seq::empty()),
{
    lemma_blank_from(s, 0);
    assert(Seq::<Lexeme>::empty().map_values(|l: Lexeme| locate(s, l)) =~= Seq::<
        TokenView,
    >::empty());
}

} // verus!
