//! Byte ranges into the source text, kept as `codespan::Span` values.
//!
//! Verus does not look inside a `Span`. Contracts speak of one through
//! `span_start` and `span_end`, and nothing here is proved of `codespan`:
//! what is said of it is believed.

use codespan::Span;
use vstd::prelude::*;

verus! {

/// `codespan::Span`, a half-open range of byte indices, as an opaque type.
#[verifier::external_type_specification]
#[verifier::external_body]
pub struct ExSpan(codespan::Span);

/// The byte index that `Span::start` returns for `span`, as a number.
pub uninterp spec fn span_start(span: Span) -> u32;

/// The byte index that `Span::end` returns for `span`, as a number.
pub uninterp spec fn span_end(span: Span) -> u32;

/// Calls `Span::new`, which panics where `end` is below `start` and otherwise
/// keeps both indices as they are given: of the span it returns,
/// `Span::start` gives `start` and `Span::end` gives `end`.
#[verifier::external_body]
pub(crate) fn span_between(start: u32, end: u32) -> (span: Span)
    requires
        start <= end,
    ensures
        span_start(span) == start,
        span_end(span) == end,
{
    Span::new(start, end)
}

} // verus!
