//! Errors of the parser.

use crate::error::lexing::position_prefix;
use crate::error::lexing::render_at;
use crate::span::Span;
use crate::span::Spanned;
use crate::text::push_str;
use vstd::prelude::*;
use vstd::string::StringExecFns;

verus! {

/// The message of an error that names what was expected and what stood there.
pub open spec fn expected_message(expected: Seq<char>, found: Seq<char>) -> Seq<char> {
    "Expected '"@ + expected + "', found '"@ + found + "'"@
}

/// A place where the token sequence is no program. `should_sync` tells the
/// parser whether to skip ahead to the next statement before it goes on.
#[derive(Debug)]
pub struct Error {
    pub span: Span,
    pub message: String,
    pub should_sync: bool,
}

impl Error {
    pub fn custom<S: Spanned>(spanned: S, message: &str) -> (e: Self)
        ensures
            e.span == spanned.spanned(),
            e.message@ == message@,
            e.should_sync,
    {
        Self { span: spanned.span(), message: String::from_str(message), should_sync: true }
    }

    pub fn custom_no_sync<S: Spanned>(spanned: S, message: &str) -> (e: Self)
        ensures
            e.span == spanned.spanned(),
            e.message@ == message@,
            !e.should_sync,
    {
        Self { span: spanned.span(), message: String::from_str(message), should_sync: false }
    }

    pub fn expected<S: Spanned>(spanned: S, expected: &str, found: &str) -> (e: Self)
        ensures
            e.span == spanned.spanned(),
            e.message@ == expected_message(expected@, found@),
            e.should_sync,
    {
        let mut message = String::new();
        push_str(&mut message, "Expected '");
        push_str(&mut message, expected);
        push_str(&mut message, "', found '");
        push_str(&mut message, found);
        push_str(&mut message, "'");
        assert(message@ =~= expected_message(expected@, found@));
        Self { span: spanned.span(), message, should_sync: true }
    }

    /// The error as one line of text.
    pub fn to_string(&self) -> (s: String)
        ensures
            s@ == position_prefix(self.span) + self.message@,
    {
        render_at(self.span, &self.message)
    }
}

impl Spanned for Error {
    open spec fn spanned(&self) -> Span {
        self.span
    }

    fn span(&self) -> (s: Span) {
        self.span
    }
}

} // verus!
