//! The lexer: from source text to spanned tokens.
//!
//! The text is cut into maximal runs of one kind each. Brackets, numbers and
//! symbols become tokens; whitespace and comments are passed over.

use crate::ast::{token_views, Token, TokenKind, TokenKindView, TokenView};
use crate::chars::{extends, is_digit, opening, run_extended_by, run_opened_by, RunKind};
use crate::error::{prepend, ParseError};
use crate::offsets::{
    byte_offset, lemma_bytes_between, lemma_offset_is_boundary, lemma_offset_monotonic,
    lemma_offset_step, utf8_width_of,
};
use crate::span::span_between;
use vstd::prelude::*;
use vstd::std_specs::iter::IteratorSpec;
use vstd::string::StringSliceAdditionalSpecFns;
use vstd::utf8::*;

verus! {

/// The value of a decimal digit.
pub open spec fn digit_value(c: char) -> nat {
    (c as u32 - '0' as u32) as nat
}

/// The number that a text of decimal digits denotes.
pub open spec fn decimal_value(digits: Seq<char>) -> nat
    decreases digits.len(),
{
    if digits.len() == 0 {
        0
    } else {
        10 * decimal_value(digits.drop_last()) + digit_value(digits.last())
    }
}

/// The value of a text of digits where it fits an `i64`.
pub open spec fn checked_decimal(digits: Seq<char>) -> Option<i64> {
    if decimal_value(digits) <= i64::MAX {
        Some(decimal_value(digits) as i64)
    } else {
        None
    }
}

/// A token located by character indices: it is spelt by the characters of the
/// source from `lo` up to, not including, `hi`.
pub struct Lexeme {
    pub kind: TokenKindView,
    pub lo: int,
    pub hi: int,
}

/// Where a run of `kind` that has reached index `i` ends: the first index from
/// `i` on that holds no character extending the run.
pub open spec fn run_end(s: Seq<char>, kind: RunKind, i: int) -> int
    decreases s.len() - i,
{
    if 0 <= i < s.len() && extends(kind, s[i]) {
        run_end(s, kind, i + 1)
    } else {
        i
    }
}

/// What a complete run yields: nothing where it is passed over, else the kind
/// of its token, or the error that its text gives rise to.
pub open spec fn run_token(kind: RunKind, text: Seq<char>) -> Option<
    Result<TokenKindView, ParseError>,
> {
    match kind {
        RunKind::LeftBracket => Some(Ok(TokenKindView::LeftBracket)),
        RunKind::RightBracket => Some(Ok(TokenKindView::RightBracket)),
        RunKind::Number => if decimal_value(text) <= i64::MAX {
            Some(Ok(TokenKindView::Number(decimal_value(text) as int)))
        } else {
            Some(Err(ParseError::NumberOverflow))
        },
        RunKind::Symbol => Some(Ok(TokenKindView::Symbol(text))),
        RunKind::Whitespace | RunKind::Comment => None,
    }
}

/// The lexemes of `s` from index `i` on, or the first error in source order.
pub open spec fn scan_from(s: Seq<char>, i: int) -> Result<Seq<Lexeme>, ParseError>
    decreases s.len() - i,
{
    if i < 0 || i >= s.len() {
        Ok(Seq::empty())
    } else {
        match opening(s[i]) {
            None => Err(ParseError::InvalidCharacter),
            Some(kind) => {
                let j = run_end(s, kind, i + 1);
                proof {
                    lemma_run_end(s, kind, i + 1);
                }
                match run_token(kind, s.subrange(i, j)) {
                    None => scan_from(s, j),
                    Some(Err(e)) => Err(e),
                    Some(Ok(token)) => prepend(
                        seq![Lexeme { kind: token, lo: i, hi: j }],
                        scan_from(s, j),
                    ),
                }
            },
        }
    }
}

/// The token that a lexeme stands for: its character indices become byte offsets.
pub open spec fn locate(s: Seq<char>, lexeme: Lexeme) -> TokenView {
    TokenView {
        kind: lexeme.kind,
        start: byte_offset(s, lexeme.lo),
        end: byte_offset(s, lexeme.hi),
    }
}

/// The tokens of the source text `s`, or the first error in source order.
pub open spec fn lex(s: Seq<char>) -> Result<Seq<TokenView>, ParseError> {
    match scan_from(s, 0) {
        Ok(lexemes) => Ok(lexemes.map_values(|l: Lexeme| locate(s, l))),
        Err(e) => Err(e),
    }
}

/// A run ends within the text, everything before its end extends it, and what
/// stands at its end does not.
pub proof fn lemma_run_end(s: Seq<char>, kind: RunKind, i: int)
    requires
        0 <= i <= s.len(),
    ensures
        i <= run_end(s, kind, i) <= s.len(),
        forall|k: int| i <= k < run_end(s, kind, i) ==> extends(kind, #[trigger] s[k]),
        run_end(s, kind, i) < s.len() ==> !extends(kind, s[run_end(s, kind, i)]),
    decreases s.len() - i,
{
    if i < s.len() && extends(kind, s[i]) {
        lemma_run_end(s, kind, i + 1);
    }
}

/// Appending one more digit multiplies the value by ten and adds the digit.
proof fn lemma_decimal_push(digits: Seq<char>, c: char)
    ensures
        decimal_value(digits.push(c)) == 10 * decimal_value(digits) + digit_value(c),
{
    assert(digits.push(c).drop_last() =~= digits);
}

/// The text of `source` between two byte offsets that are the offsets of the
/// characters `lo` and `hi`.
fn text_between<'a>(
    source: &'a str,
    start: usize,
    end: usize,
    Ghost(lo): Ghost<int>,
    Ghost(hi): Ghost<int>,
) -> (text: &'a str)
    requires
        0 <= lo <= hi <= source@.len(),
        start == byte_offset(source@, lo),
        end == byte_offset(source@, hi),
    ensures
        text@ == source@.subrange(lo, hi),
{
    let ghost s = source@;
    let ghost n = s.len() as int;
    proof {
        lemma_offset_is_boundary(s, lo);
        lemma_offset_monotonic(s, lo, hi);
        lemma_bytes_between(s, lo, n);
        lemma_offset_monotonic(s, lo, n);
    }
    let (_, tail) = source.split_at(start);
    proof {
        assert(tail.spec_bytes() == encode_utf8(s.subrange(lo, n)));
        encode_utf8_decode_utf8(tail@);
        encode_utf8_decode_utf8(s.subrange(lo, n));
        assert(tail@ == s.subrange(lo, n));
        let t = tail@;
        lemma_offset_is_boundary(t, hi - lo);
        assert(t.take(hi - lo) =~= s.subrange(lo, hi));
        lemma_bytes_between(s, lo, hi);
        assert(byte_offset(t, hi - lo) == end - start);
        lemma_bytes_between(t, 0, hi - lo);
        assert(t.take(0) =~= Seq::<char>::empty());
    }
    let (text, _) = tail.split_at(end - start);
    proof {
        let t = tail@;
        assert(t.subrange(0, hi - lo) =~= s.subrange(lo, hi));
        assert(text.spec_bytes() == encode_utf8(s.subrange(lo, hi)));
        encode_utf8_decode_utf8(text@);
        encode_utf8_decode_utf8(s.subrange(lo, hi));
    }
    text
}

/// Takes the value read so far, `None` once it has left the range of `i64`,
/// one digit further.
fn push_digit(value: Option<i64>, digit: char) -> (next: Option<i64>)
    requires
        is_digit(digit),
        value matches Some(v) ==> v >= 0,
    ensures
        next == match value {
            Some(v) => if 10 * v + digit_value(digit) <= i64::MAX {
                Some((10 * v + digit_value(digit)) as i64)
            } else {
                None
            },
            None => None,
        },
{
    let d: i64 = (digit as u32 - '0' as u32) as i64;
    match value {
        Some(v) => match v.checked_mul(10) {
            Some(tens) => tens.checked_add(d),
            None => None,
        },
        None => None,
    }
}

/// Cuts the source text into tokens.
///
/// Fails with `InvalidCharacter` at the first character that opens no run and
/// with `NumberOverflow` at the first number above `i64::MAX`, whichever
/// comes first in the text. The source may be `u32::MAX` bytes long at most:
/// that is as far as a span reaches.
pub fn tokenise(source: &str) -> (result: Result<Vec<Token>, ParseError>)
    requires
        source.spec_bytes().len() <= u32::MAX,
    ensures
        match result {
            Ok(tokens) => lex(source@) == Ok::<Seq<TokenView>, ParseError>(token_views(tokens@)),
            Err(e) => lex(source@) == Err::<Seq<TokenView>, ParseError>(e),
        },
{
    let ghost s = source@;
    let ghost mut lexemes: Seq<Lexeme> = Seq::empty();
    let ghost mut i: int = 0;
    let mut tokens: Vec<Token> = Vec::new();
    let mut chars = source.chars();
    let mut current = chars.next();
    let mut pos: usize = 0;
    proof {
        assert(s.take(0) =~= Seq::<char>::empty());
        assert(s.skip(0) =~= s);
        assert(lexemes + scan_from(s, 0)->Ok_0 =~= scan_from(s, 0)->Ok_0);
    }
    loop
        invariant
            s == source@,
            encode_utf8(s).len() <= u32::MAX,
            0 <= i <= s.len(),
            pos == byte_offset(s, i),
            current == (if i < s.len() {
                Some(s[i])
            } else {
                None
            }),
            i < s.len() ==> chars.remaining() == s.skip(i + 1),
            tokens@.len() == lexemes.len(),
            forall|k: int| 0 <= k < lexemes.len() ==> (#[trigger] tokens@[k])@ == locate(s, lexemes[k]),
            scan_from(s, 0) == prepend(lexemes, scan_from(s, i)),
        decreases s.len() - i,
    {
        let c = match current {
            Some(c) => c,
            None => {
                proof {
                    assert(lexemes + Seq::<Lexeme>::empty() =~= lexemes);
                    assert(token_views(tokens@) =~= lexemes.map_values(|l: Lexeme| locate(s, l)));
                }
                return Ok(tokens);
            },
        };
        let kind = match run_opened_by(c) {
            Some(kind) => kind,
            None => {
                return Err(ParseError::InvalidCharacter);
            },
        };
        let start = pos;
        let ghost lo = i;
        let ghost hi = run_end(s, kind, lo + 1);
        let mut value: Option<i64> = Some(0);
        if kind == RunKind::Number {
            value = push_digit(value, c);
        }
        proof {
            lemma_run_end(s, kind, lo + 1);
            lemma_offset_step(s, i);
            lemma_offset_monotonic(s, i + 1, s.len() as int);
            lemma_decimal_push(Seq::<char>::empty(), c);
            assert(s.subrange(lo, lo + 1) =~= Seq::<char>::empty().push(c));
            if i + 1 < s.len() {
                assert(s.skip(i + 1).drop_first() =~= s.skip(i + 2));
            }
        }
        pos = pos + utf8_width_of(c);
        current = chars.next();
        proof {
            i = i + 1;
        }
        loop
            invariant
                s == source@,
                encode_utf8(s).len() <= u32::MAX,
                0 <= lo < i <= hi <= s.len(),
                hi == run_end(s, kind, i),
                pos == byte_offset(s, i),
                current == (if i < s.len() {
                    Some(s[i])
                } else {
                    None
                }),
                i < s.len() ==> chars.remaining() == s.skip(i + 1),
                kind == RunKind::Number ==> value == checked_decimal(s.subrange(lo, i)),
            ensures
                i == hi,
            decreases s.len() - i,
        {
            let d = match current {
                Some(d) => d,
                None => {
                    break ;
                },
            };
            if !run_extended_by(kind, d) {
                break ;
            }
            if kind == RunKind::Number {
                proof {
                    lemma_decimal_push(s.subrange(lo, i), d);
                    assert(s.subrange(lo, i + 1) =~= s.subrange(lo, i).push(d));
                }
                value = push_digit(value, d);
            }
            proof {
                lemma_offset_step(s, i);
                lemma_offset_monotonic(s, i + 1, s.len() as int);
                lemma_run_end(s, kind, i + 1);
                if i + 1 < s.len() {
                    assert(s.skip(i + 1).drop_first() =~= s.skip(i + 2));
                }
            }
            pos = pos + utf8_width_of(d);
            current = chars.next();
            proof {
                i = i + 1;
            }
        }
        proof {
            lemma_offset_monotonic(s, lo, hi);
            lemma_offset_monotonic(s, hi, s.len() as int);
        }
        let found = match kind {
            RunKind::Whitespace | RunKind::Comment => None,
            RunKind::LeftBracket => Some(TokenKind::LeftBracket),
            RunKind::RightBracket => Some(TokenKind::RightBracket),
            RunKind::Number => match value {
                Some(v) => Some(TokenKind::Number(v)),
                None => {
                    return Err(ParseError::NumberOverflow);
                },
            },
            RunKind::Symbol => {
                let text = text_between(source, start, pos, Ghost(lo), Ghost(hi));
                Some(TokenKind::Symbol(text.to_owned()))
            },
        };
        match found {
            None => {},
            Some(token_kind) => {
                let token = Token::with_span(token_kind, span_between(start as u32, pos as u32));
                let ghost lexeme = Lexeme { kind: token.kind@, lo: lo, hi: hi };
                proof {
                    let rest = scan_from(s, hi);
                    assert(scan_from(s, lo) == prepend(seq![lexeme], rest));
                    if rest is Ok {
                        assert(lexemes + (seq![lexeme] + rest->Ok_0) =~= lexemes.push(lexeme)
                            + rest->Ok_0);
                    }
                    lexemes = lexemes.push(lexeme);
                }
                tokens.push(token);
            },
        }
    }
}

} // verus!
