//! Errors of the scanner.

use crate::span::Span;
use crate::span::Spanned;
use crate::text::decimal;
use crate::text::push_decimal;
use crate::text::push_str;
use vstd::prelude::*;

verus! {

/// The position prefix of a rendered error: `[line L:B] `, with the first
/// line of the span and the byte at which it starts.
pub open spec fn position_prefix(span: Span) -> Seq<char> {
    "[line "@ + decimal(span.line_start as nat) + ":"@ + decimal(span.start as nat) + "] "@
}

/// Writes [`position_prefix`] of `span`, then `message`.
pub fn render_at(span: Span, message: &String) -> (s: String)
    ensures
        s@ == position_prefix(span) + message@,
{
    let mut s = String::new();
    push_str(&mut s, "[line ");
    push_decimal(&mut s, span.line_start as u64);
    push_str(&mut s, ":");
    push_decimal(&mut s, span.start as u64);
    push_str(&mut s, "] ");
    push_str(&mut s, message.as_str());
    assert(s@ =~= position_prefix(span) + message@);
    s
}

/// A piece of source text that is no token.
#[derive(Debug)]
pub struct Error {
    pub span: Span,
    pub message: String,
}

impl Error {
    pub fn new<S: Spanned>(spanned: S, message: String) -> (e: Self)
        ensures
            e.span == spanned.spanned(),
            e.message == message,
    {
        Self { span: spanned.span(), message }
    }

    /// The error as one line of text.
    pub fn to_string(&self) -> (s: String)
        ensures
            s@ == position_prefix(self.span) + self.message@,
    {
        render_at(self.span, &self.message)
    }
}

impl Spanned for Error {
    open spec fn spanned(&self) -> Span {
        self.span
    }

    fn span(&self) -> (s: Span) {
        self.span
    }
}

} // verus!
