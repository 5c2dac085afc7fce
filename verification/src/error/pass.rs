//! Errors of the passes that run between parsing and evaluation.

use crate::error::lexing::position_prefix;
use crate::error::lexing::render_at;
use crate::span::Span;
use crate::span::Spanned;
use vstd::prelude::*;
use vstd::string::StringExecFns;

verus! {

/// What a pass over the syntax tree objects to. The resolver raises none.
#[derive(Debug)]
pub struct Error {
    pub span: Span,
    pub message: String,
}

impl Error {
    pub fn custom<S: Spanned>(spanned: S, message: &str) -> (e: Self)
        ensures
            e.span == spanned.spanned(),
            e.message@ == message@,
    {
        Self { span: spanned.span(), message: String::from_str(message) }
    }

    /// The error as one line of text.
    pub fn to_string(&self) -> (s: String)
        ensures
            s@ == position_prefix(self.span) + self.message@,
    {
        render_at(self.span, &self.message)
    }
}

impl Spanned for Error {
    open spec fn spanned(&self) -> Span {
        self.span
    }

    fn span(&self) -> (s: Span) {
        self.span
    }
}

} // verus!
