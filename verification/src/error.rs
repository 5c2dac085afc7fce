//! The kinds of failure, and the exit code of each.

use crate::text::decimal;
use crate::text::push_char;
use crate::text::push_decimal;
use crate::text::push_str;
use vstd::prelude::*;

pub mod lexing;
pub mod parsing;
pub mod pass;
pub mod runtime;

pub use lexing::Error as LexingError;
pub use parsing::Error as ParsingError;
pub use pass::Error as PassError;
pub use runtime::Error as RuntimeError;

verus! {

/// Everything that can stop a run.
#[derive(Debug)]
pub enum Error {
    Lexing(Vec<LexingError>),
    Parsing(Vec<ParsingError>),
    Pass(PassError),
    Runtime(RuntimeError),
    Other(String),
}

/// Exit code of a run that ended well.
pub const EXIT_OK: u8 = 0;

/// Exit code of a wrong command line.
pub const EXIT_USAGE: u8 = 64;

/// Exit code of a program that does not scan, parse or resolve.
pub const EXIT_COMPILE: u8 = 65;

/// Exit code of a program that failed while it ran.
pub const EXIT_RUNTIME: u8 = 70;

/// Exit code of any other failure.
pub const EXIT_OTHER: u8 = 1;

/// The lines of `lines` from `from` on, with a newline between each two.
pub open spec fn joined_lines(lines: Seq<Seq<char>>, from: int) -> Seq<char>
    decreases lines.len() - from,
{
    if from < 0 || from >= lines.len() {
        Seq::empty()
    } else if from == lines.len() - 1 {
        lines[from]
    } else {
        lines[from] + seq!['\n'] + joined_lines(lines, from + 1)
    }
}

/// The heading of a batch of `n` errors followed by the errors themselves.
pub open spec fn batch_text(lines: Seq<Seq<char>>) -> Seq<char> {
    decimal(lines.len()) + " errors:\n"@ + joined_lines(lines, 0)
}

/// The views of a sequence of strings.
pub open spec fn line_views(lines: Seq<String>) -> Seq<Seq<char>> {
    lines.map_values(|s: String| s@)
}

/// Joins rendered errors, one per line.
pub fn display_error_list(errors: &Vec<String>) -> (s: String)
    ensures
        s@ == joined_lines(line_views(errors@), 0),
{
    let mut s = String::new();
    let n = errors.len();
    let mut i: usize = n;
    let ghost lines = line_views(errors@);
    // Built from the last line backwards: what is held is always a suffix of
    // the result.
    while i > 0
        invariant
            i <= n,
            n == errors.len(),
            lines == line_views(errors@),
            s@ == joined_lines(lines, i as int),
        decreases i,
    {
        i -= 1;
        let mut t = String::new();
        push_str(&mut t, errors[i].as_str());
        if i + 1 < n {
            push_char(&mut t, '\n');
            push_str(&mut t, s.as_str());
        }
        assert(lines[i as int] == errors@[i as int]@);
        assert(t@ =~= joined_lines(lines, i as int));
        s = t;
    }
    s
}

impl Error {
    /// The exit code that reports this error.
    pub open spec fn exit_code_spec(&self) -> u8 {
        match self {
            Error::Lexing(_) | Error::Parsing(_) | Error::Pass(_) => EXIT_COMPILE,
            Error::Runtime(_) => EXIT_RUNTIME,
            Error::Other(_) => EXIT_OTHER,
        }
    }

    #[verifier::when_used_as_spec(exit_code_spec)]
    pub fn exit_code(&self) -> (code: u8)
        ensures
            code == self.exit_code_spec(),
            code != EXIT_OK,
    {
        match self {
            Error::Lexing(_) | Error::Parsing(_) | Error::Pass(_) => EXIT_COMPILE,
            Error::Runtime(_) => EXIT_RUNTIME,
            Error::Other(_) => EXIT_OTHER,
        }
    }

    /// A batch with the single error `err`.
    pub fn from_lexing(err: LexingError) -> (e: Self)
        ensures
            e matches Error::Lexing(v) && v@ == seq![err],
    {
        let mut v = Vec::new();
        v.push(err);
        Error::Lexing(v)
    }

    /// A batch with the single error `err`.
    pub fn from_parsing(err: ParsingError) -> (e: Self)
        ensures
            e matches Error::Parsing(v) && v@ == seq![err],
    {
        let mut v = Vec::new();
        v.push(err);
        Error::Parsing(v)
    }

    /// The error as text: a batch as its count and one line per error, any
    /// other as its own line.
    pub fn to_string(&self) -> (s: String)
        ensures
            self matches Error::Lexing(v) ==> s@ == batch_text(lexing_lines(v@)),
            self matches Error::Parsing(v) ==> s@ == batch_text(parsing_lines(v@)),
            self matches Error::Pass(e) ==> s@ == lexing::position_prefix(e.span) + e.message@,
            self matches Error::Runtime(e) ==> s@ == lexing::position_prefix(e.span) + e.message@,
            self matches Error::Other(m) ==> s@ == m@,
    {
        match self {
            Error::Lexing(v) => {
                let mut lines: Vec<String> = Vec::new();
                let mut i: usize = 0;
                while i < v.len()
                    invariant
                        i <= v.len(),
                        lines.len() == i,
                        forall|j: int|
                            0 <= j < i ==> (#[trigger] lines[j])@ == lexing::position_prefix(
                                v[j].span,
                            ) + v[j].message@,
                    decreases v.len() - i,
                {
                    lines.push(v[i].to_string());
                    i += 1;
                }
                assert(line_views(lines@) =~= lexing_lines(v@));
                batch(&lines)
            },
            Error::Parsing(v) => {
                let mut lines: Vec<String> = Vec::new();
                let mut i: usize = 0;
                while i < v.len()
                    invariant
                        i <= v.len(),
                        lines.len() == i,
                        forall|j: int|
                            0 <= j < i ==> (#[trigger] lines[j])@ == lexing::position_prefix(
                                v[j].span,
                            ) + v[j].message@,
                    decreases v.len() - i,
                {
                    lines.push(v[i].to_string());
                    i += 1;
                }
                assert(line_views(lines@) =~= parsing_lines(v@));
                batch(&lines)
            },
            Error::Pass(e) => e.to_string(),
            Error::Runtime(e) => e.to_string(),
            Error::Other(m) => m.clone(),
        }
    }
}

/// The rendered lines of a batch of scanner errors.
pub open spec fn lexing_lines(errors: Seq<LexingError>) -> Seq<Seq<char>> {
    Seq::new(errors.len(), |j: int| lexing::position_prefix(errors[j].span) + errors[j].message@)
}

/// The rendered lines of a batch of parser errors.
pub open spec fn parsing_lines(errors: Seq<ParsingError>) -> Seq<Seq<char>> {
    Seq::new(errors.len(), |j: int| lexing::position_prefix(errors[j].span) + errors[j].message@)
}

fn batch(lines: &Vec<String>) -> (s: String)
    ensures
        s@ == batch_text(line_views(lines@)),
{
    let mut s = String::new();
    push_decimal(&mut s, lines.len() as u64);
    push_str(&mut s, " errors:\n");
    let list = display_error_list(lines);
    push_str(&mut s, list.as_str());
    assert(s@ =~= batch_text(line_views(lines@)));
    s
}

} // verus!
