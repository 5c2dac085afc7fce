//! Errors of a running program.

use crate::error::lexing::position_prefix;
use crate::error::lexing::render_at;
use crate::span::Span;
use crate::span::Spanned;
use crate::text::decimal;
use crate::text::push_decimal;
use crate::text::push_str;
use vstd::prelude::*;
use vstd::string::StringExecFns;

verus! {

/// The message of a call with the wrong number of arguments.
pub open spec fn arity_message(expected: nat, found: nat) -> Seq<char> {
    "Expected "@ + decimal(expected) + " arguments but found "@ + decimal(found)
}

/// What went wrong while a program ran, and where.
#[derive(Debug)]
pub struct Error {
    pub span: Span,
    pub message: String,
}

impl Error {
    pub fn custom<S: Spanned>(spanned: S, message: &str) -> (e: Self)
        ensures
            e.span == spanned.spanned(),
            e.message@ == message@,
    {
        Self { span: spanned.span(), message: String::from_str(message) }
    }

    pub fn with_token<S: Spanned>(spanned: S, message: &str) -> (e: Self)
        ensures
            e.span == spanned.spanned(),
            e.message@ == message@,
    {
        Self { span: spanned.span(), message: String::from_str(message) }
    }

    pub fn undefined<S: Spanned>(spanned: S) -> (e: Self)
        ensures
            e.span == spanned.spanned(),
            e.message@ == "Undefined variable."@,
    {
        Self { span: spanned.span(), message: String::from_str("Undefined variable.") }
    }

    pub fn not_callable(span: Span) -> (e: Self)
        ensures
            e.span == span,
            e.message@ == "Object is not a callable."@,
    {
        Self { span, message: String::from_str("Object is not a callable.") }
    }

    pub fn arity(span: Span, expected: u8, found: usize) -> (e: Self)
        ensures
            e.span == span,
            e.message@ == arity_message(expected as nat, found as nat),
    {
        let mut message = String::new();
        push_str(&mut message, "Expected ");
        push_decimal(&mut message, expected as u64);
        push_str(&mut message, " arguments but found ");
        push_decimal(&mut message, found as u64);
        assert(message@ =~= arity_message(expected as nat, found as nat));
        Self { span, message }
    }

    pub fn invalid_break_or_continue<S: Spanned>(spanned: S) -> (e: Self)
        ensures
            e.span == spanned.spanned(),
            e.message@ == "Invalid control flow statement outside for/while loop."@,
    {
        Self {
            span: spanned.span(),
            message: String::from_str("Invalid control flow statement outside for/while loop."),
        }
    }

    pub fn invalid_return<S: Spanned>(spanned: S) -> (e: Self)
        ensures
            e.span == spanned.spanned(),
            e.message@ == "Invalid return statement."@,
    {
        Self { span: spanned.span(), message: String::from_str("Invalid return statement.") }
    }

    /// The error as one line of text.
    pub fn to_string(&self) -> (s: String)
        ensures
            s@ == position_prefix(self.span) + self.message@,
    {
        render_at(self.span, &self.message)
    }
}

impl Clone for Error {
    fn clone(&self) -> (r: Self)
        ensures
            r == *self,
    {
        Self { span: self.span, message: self.message.clone() }
    }
}

impl Spanned for Error {
    open spec fn spanned(&self) -> Span {
        self.span
    }

    fn span(&self) -> (s: Span) {
        self.span
    }
}

} // verus!
