//! Rendering errors with the piece of source that they are about.

use crate::error::LexingError;
use crate::error::ParsingError;
use crate::error::PassError;
use crate::error::RuntimeError;
use crate::span::Span;
use crate::span::Spanned;
use crate::text::byte_len;
use crate::text::char_width;
use crate::text::chars_of;
use crate::text::decimal;
use crate::text::lemma_byte_len_monotonic;
use crate::text::lemma_byte_len_step;
use crate::text::push_decimal;
use crate::text::push_str;
use crate::text::string_of;
use vstd::prelude::*;
use vstd::string::StrSliceExecFns;

verus! {

/// The index of the first character of `s`, from `i` on, before which at
/// least `offset` bytes stand; the length of `s` if there is none.
pub open spec fn char_index_from(s: Seq<char>, offset: nat, i: int) -> int
    decreases s.len() - i,
{
    if i < 0 || i >= s.len() || byte_len(s.take(i)) >= offset {
        i
    } else {
        char_index_from(s, offset, i + 1)
    }
}

/// The index of the character of `s` that begins at byte `offset`, if one
/// begins there.
pub open spec fn char_index(s: Seq<char>, offset: nat) -> int {
    char_index_from(s, offset, 0)
}

/// Whether a character of `s` begins at byte `offset`, or `s` ends there.
pub open spec fn is_boundary(s: Seq<char>, offset: nat) -> bool {
    0 <= char_index(s, offset) <= s.len() && byte_len(s.take(char_index(s, offset))) == offset
}

/// The characters of `s` that the bytes from `start` up to `end` hold.
pub open spec fn covered(s: Seq<char>, span: Span) -> Seq<char> {
    s.subrange(char_index(s, span.start as nat), char_index(s, span.end as nat))
}

/// Whether the byte range of `span` is a range of whole characters of `s`.
pub open spec fn fits(s: Seq<char>, span: Span) -> bool {
    &&& span.start <= span.end
    &&& is_boundary(s, span.start as nat)
    &&& is_boundary(s, span.end as nat)
}

/// The index of the character that begins at byte `offset`, if one does.
fn find_char(chars: &Vec<char>, offset: usize) -> (found: Option<usize>)
    ensures
        found is Some <==> is_boundary(chars@, offset as nat),
        found matches Some(i) ==> i == char_index(chars@, offset as nat) && i <= chars@.len(),
{
    let mut i: usize = 0;
    let mut bytes: usize = 0;
    assert(chars@.take(0) =~= Seq::<char>::empty());
    while i < chars.len() && bytes < offset
        invariant
            i <= chars@.len(),
            bytes == byte_len(chars@.take(i as int)),
            bytes <= offset,
            char_index_from(chars@, offset as nat, i as int) == char_index(chars@, offset as nat),
        decreases chars@.len() - i,
    {
        proof {
            lemma_byte_len_step(chars@, i as int);
        }
        let width = char_width(chars[i]);
        if width > offset - bytes {
            proof {
                // The character at `i` begins before `offset` and ends after it.
                lemma_tail_index(chars@, offset as nat, i + 1);
            }
            return None;
        }
        bytes = bytes + width;
        i += 1;
    }
    if bytes == offset {
        Some(i)
    } else {
        None
    }
}

/// From an index whose prefix is wider than `offset`, the search for
/// `offset` stops at once.
proof fn lemma_tail_index(s: Seq<char>, offset: nat, i: int)
    requires
        0 <= i <= s.len(),
        byte_len(s.take(i)) > offset,
    ensures
        char_index_from(s, offset, i) == i,
{
}

impl Span {
    /// The piece of `s` that the span covers.
    pub fn slice(&self, s: &str) -> (piece: String)
        requires
            fits(s@, *self),
        ensures
            piece@ == covered(s@, *self),
    {
        match self.try_slice(s) {
            Some(piece) => piece,
            None => vstd::pervasive::unreached(),
        }
    }

    /// The piece of `s` that the span covers, if the span is a range of
    /// whole characters of `s`.
    pub fn try_slice(&self, s: &str) -> (piece: Option<String>)
        ensures
            piece is Some <==> fits(s@, *self),
            piece matches Some(p) ==> p@ == covered(s@, *self),
    {
        if self.start > self.end {
            return None;
        }
        let chars = chars_of(s);
        let from = match find_char(&chars, self.start) {
            Some(i) => i,
            None => {
                return None;
            },
        };
        let to = match find_char(&chars, self.end) {
            Some(i) => i,
            None => {
                return None;
            },
        };
        proof {
            if to < from {
                lemma_byte_len_monotonic(chars@, to as int, from as int);
            }
        }
        if to < from {
            return None;
        }
        Some(string_of(&chars, from, to))
    }
}

/// An error that can be shown to the user.
pub trait Report: Spanned {
    /// What the error says.
    spec fn said(&self) -> Seq<char>;

    fn message(&self) -> (m: String)
        ensures
            m@ == self.said(),
    ;
}

impl Report for LexingError {
    open spec fn said(&self) -> Seq<char> {
        self.message@
    }

    fn message(&self) -> (m: String) {
        self.message.clone()
    }
}

impl Report for ParsingError {
    open spec fn said(&self) -> Seq<char> {
        self.message@
    }

    fn message(&self) -> (m: String) {
        self.message.clone()
    }
}

impl Report for RuntimeError {
    open spec fn said(&self) -> Seq<char> {
        self.message@
    }

    fn message(&self) -> (m: String) {
        self.message.clone()
    }
}

impl Report for PassError {
    open spec fn said(&self) -> Seq<char> {
        self.message@
    }

    fn message(&self) -> (m: String) {
        self.message.clone()
    }
}

/// Renders errors of one source text.
pub struct Reporter<'s> {
    pub src: &'s str,
}

/// The line that reports an error: its first line, the piece of source
/// that it is about, and what it says.
pub open spec fn report_line(line: u32, snippet: Seq<char>, said: Seq<char>) -> Seq<char> {
    "[line "@ + decimal(line as nat) + "] Error '"@ + snippet + "': "@ + said
}

impl<'s> Reporter<'s> {
    pub fn new(src: &'s str) -> (r: Self)
        ensures
            r.src@ == src@,
    {
        Self { src }
    }

    /// The line that reports `error`. An error whose span is no range of
    /// whole characters of the source is reported without a piece of source.
    pub fn report<E: Report>(&self, error: &E) -> (line: String)
        ensures
            line@ == report_line(
                error.spanned().line_start,
                if fits(self.src@, error.spanned()) {
                    covered(self.src@, error.spanned())
                } else {
                    Seq::empty()
                },
                error.said(),
            ),
    {
        let span = error.span();
        let snippet = match span.try_slice(self.src) {
            Some(piece) => piece,
            None => String::new(),
        };
        let said = error.message();
        let mut line = String::new();
        push_str(&mut line, "[line ");
        push_decimal(&mut line, span.line_start as u64);
        push_str(&mut line, "] Error '");
        push_str(&mut line, snippet.as_str());
        push_str(&mut line, "': ");
        push_str(&mut line, said.as_str());
        assert(line@ =~= report_line(span.line_start, snippet@, said@));
        line
    }
}

} // verus!
