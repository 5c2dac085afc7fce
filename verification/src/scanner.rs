//! The scanner: from source text to tokens.

use crate::error::LexingError;
use crate::span::Span;
use crate::text::byte_len;
use crate::text::char_width;
use crate::text::chars_of;
use crate::text::lemma_byte_len_monotonic;
use crate::text::lemma_byte_len_step;
use crate::text::string_of;
use crate::tokens::keyword;
use crate::tokens::keyword_kind;
use crate::tokens::Token;
use crate::tokens::TokenKind;
use crate::tokens::TokenType;
use crate::tokens::TokenView;
use vstd::prelude::*;
use vstd::string::StringExecFns;

verus! {

/// The longest source, in characters, that the scanner takes: every byte
/// offset and every line number of such a source fits its field.
pub const MAX_SOURCE_CHARS: usize = 0x3fff_ffff;

/// Whether Unicode counts `c` as alphabetic: what std's
/// `char::is_alphabetic` answers.
pub uninterp spec fn alphabetic(c: char) -> bool;

/// Whether Unicode counts `c` as alphabetic or numeric: what std's
/// `char::is_alphanumeric` answers.
pub uninterp spec fn alphanumeric(c: char) -> bool;

/// Asks std's `char::is_alphabetic`, whose answer depends on `c` alone.
#[verifier::external_body]
fn is_alphabetic(c: char) -> (b: bool)
    ensures
        b == alphabetic(c),
{
    c.is_alphabetic()
}

/// Asks std's `char::is_alphanumeric`, whose answer depends on `c` alone.
#[verifier::external_body]
fn is_alphanumeric(c: char) -> (b: bool)
    ensures
        b == alphanumeric(c),
{
    c.is_alphanumeric()
}

/// One of the ten ASCII digits.
pub open spec fn is_digit(c: char) -> bool {
    '0' <= c && c <= '9'
}

/// A character that may start a name.
pub open spec fn starts_name(c: char) -> bool {
    alphabetic(c) || c == '_'
}

/// A character that may continue a name.
pub open spec fn continues_name(c: char) -> bool {
    alphanumeric(c) || c == '_'
}

/// The first index from `i` on at which `s` ends or holds no digit.
pub open spec fn digits_end(s: Seq<char>, i: int) -> int
    decreases s.len() - i,
{
    if 0 <= i < s.len() && is_digit(s[i]) {
        digits_end(s, i + 1)
    } else {
        i
    }
}

/// The first index from `i` on at which `s` ends or holds no character of a name.
pub open spec fn name_end(s: Seq<char>, i: int) -> int
    decreases s.len() - i,
{
    if 0 <= i < s.len() && continues_name(s[i]) {
        name_end(s, i + 1)
    } else {
        i
    }
}

/// The first index from `i` on at which `s` ends or holds `stop`.
pub open spec fn find_char(s: Seq<char>, i: int, stop: char) -> int
    decreases s.len() - i,
{
    if 0 <= i < s.len() && s[i] != stop {
        find_char(s, i + 1, stop)
    } else {
        i
    }
}

/// The number of line breaks in `s[i..j]`.
pub open spec fn newlines(s: Seq<char>, i: int, j: int) -> nat
    decreases j - i,
{
    if i < j && 0 < j <= s.len() {
        newlines(s, i, j - 1) + if s[j - 1] == '\n' {
            1nat
        } else {
            0nat
        }
    } else {
        0
    }
}

/// The span of the characters `s[start..end]`, all of it on line `line`.
pub open spec fn span_of(s: Seq<char>, start: int, end: int, line: int) -> Span {
    Span {
        start: byte_len(s.take(start)) as usize,
        end: byte_len(s.take(end)) as usize,
        line_start: line as u32,
        line_end: line as u32,
    }
}

/// What stands at one position of the source.
pub enum Lexed {
    /// A token that ends before `end`; the line counter is then `line`.
    Token { kind: TokenKind, payload: Seq<char>, end: int, line: int },
    /// Blank space or a comment.
    Skip { end: int, line: int },
    /// Text that is no token.
    Error { message: Seq<char>, end: int, line: int },
}

/// A one-character token, or the two-character token that it starts when
/// `second` follows.
pub open spec fn one_or_two(
    s: Seq<char>,
    i: int,
    line: int,
    second: char,
    one: TokenKind,
    two: TokenKind,
) -> Lexed {
    if i + 1 < s.len() && s[i + 1] == second {
        Lexed::Token { kind: two, payload: Seq::empty(), end: i + 2, line }
    } else {
        Lexed::Token { kind: one, payload: Seq::empty(), end: i + 1, line }
    }
}

/// The kind of the punctuation mark `c` that is a token by itself.
pub open spec fn punctuation(c: char) -> Option<TokenKind> {
    if c == '(' {
        Some(TokenKind::LeftParen)
    } else if c == ')' {
        Some(TokenKind::RightParen)
    } else if c == '{' {
        Some(TokenKind::LeftBrace)
    } else if c == '}' {
        Some(TokenKind::RightBrace)
    } else if c == ',' {
        Some(TokenKind::Comma)
    } else if c == '.' {
        Some(TokenKind::Dot)
    } else if c == '-' {
        Some(TokenKind::Minus)
    } else if c == '+' {
        Some(TokenKind::Plus)
    } else if c == ';' {
        Some(TokenKind::Semicolon)
    } else if c == '*' {
        Some(TokenKind::Star)
    } else {
        None
    }
}

/// Where the number literal that starts at `i` ends: after its digits, and
/// after a dot and more digits if at least one digit follows the dot.
pub open spec fn number_end(s: Seq<char>, i: int) -> int {
    let j = digits_end(s, i);
    if j + 1 < s.len() && s[j] == '.' && is_digit(s[j + 1]) {
        digits_end(s, j + 1)
    } else {
        j
    }
}

/// What stands at position `i` of `s` when the line counter is `line`.
pub open spec fn lex_at(s: Seq<char>, i: int, line: int) -> Lexed
    recommends
        0 <= i < s.len(),
{
    let c = s[i];
    if punctuation(c) is Some {
        Lexed::Token { kind: punctuation(c)->0, payload: Seq::empty(), end: i + 1, line }
    } else if c == '!' {
        one_or_two(s, i, line, '=', TokenKind::Bang, TokenKind::BangEqual)
    } else if c == '=' {
        one_or_two(s, i, line, '=', TokenKind::Equal, TokenKind::EqualEqual)
    } else if c == '<' {
        one_or_two(s, i, line, '=', TokenKind::Less, TokenKind::LessEqual)
    } else if c == '>' {
        one_or_two(s, i, line, '=', TokenKind::Greater, TokenKind::GreaterEqual)
    } else if c == '/' {
        if i + 1 < s.len() && s[i + 1] == '/' {
            Lexed::Skip { end: find_char(s, i + 2, '\n'), line }
        } else {
            Lexed::Token { kind: TokenKind::Slash, payload: Seq::empty(), end: i + 1, line }
        }
    } else if c == ' ' || c == '\r' || c == '\t' {
        Lexed::Skip { end: i + 1, line }
    } else if c == '\n' {
        Lexed::Skip { end: i + 1, line: line + 1 }
    } else if c == '"' {
        let close = find_char(s, i + 1, '"');
        let line_after = line + newlines(s, i + 1, close);
        if close < s.len() {
            Lexed::Token {
                kind: TokenKind::String,
                payload: s.subrange(i + 1, close),
                end: close + 1,
                line: line_after,
            }
        } else {
            Lexed::Error { message: "Unterminated string."@, end: close, line: line_after }
        }
    } else if is_digit(c) {
        let end = number_end(s, i);
        Lexed::Token { kind: TokenKind::Number, payload: s.subrange(i, end), end, line }
    } else if starts_name(c) {
        let end = name_end(s, i + 1);
        let name = s.subrange(i, end);
        match keyword_kind(name) {
            Some(kind) => Lexed::Token { kind, payload: Seq::empty(), end, line },
            None => Lexed::Token { kind: TokenKind::Identifier, payload: name, end, line },
        }
    } else {
        Lexed::Error { message: "Unexpected character."@, end: i + 1, line }
    }
}

impl Lexed {
    /// The position after what stands there.
    pub open spec fn end(self) -> int {
        match self {
            Lexed::Token { end, .. } => end,
            Lexed::Skip { end, .. } => end,
            Lexed::Error { end, .. } => end,
        }
    }

    /// The line counter after what stands there.
    pub open spec fn line(self) -> int {
        match self {
            Lexed::Token { line, .. } => line,
            Lexed::Skip { line, .. } => line,
            Lexed::Error { line, .. } => line,
        }
    }
}

/// A run of digits ends inside the source.
pub proof fn lemma_digits_end(s: Seq<char>, i: int)
    requires
        0 <= i <= s.len(),
    ensures
        i <= digits_end(s, i) <= s.len(),
    decreases s.len() - i,
{
    if i < s.len() && is_digit(s[i]) {
        lemma_digits_end(s, i + 1);
    }
}

/// A name ends inside the source.
pub proof fn lemma_name_end(s: Seq<char>, i: int)
    requires
        0 <= i <= s.len(),
    ensures
        i <= name_end(s, i) <= s.len(),
    decreases s.len() - i,
{
    if i < s.len() && continues_name(s[i]) {
        lemma_name_end(s, i + 1);
    }
}

/// The search for a character ends inside the source.
pub proof fn lemma_find_char(s: Seq<char>, i: int, stop: char)
    requires
        0 <= i <= s.len(),
    ensures
        i <= find_char(s, i, stop) <= s.len(),
    decreases s.len() - i,
{
    if i < s.len() && s[i] != stop {
        lemma_find_char(s, i + 1, stop);
    }
}

/// A piece of source holds no more line breaks than characters.
pub proof fn lemma_newlines_bound(s: Seq<char>, i: int, j: int)
    requires
        0 <= i <= j <= s.len(),
    ensures
        newlines(s, i, j) <= j - i,
    decreases j - i,
{
    if i < j {
        lemma_newlines_bound(s, i, j - 1);
    }
}

/// Whatever stands at a position takes at least one character and stays
/// inside the source, and the line counter grows by no more than was read.
pub proof fn lemma_lex_progress(s: Seq<char>, i: int, line: int)
    requires
        0 <= i < s.len(),
    ensures
        i < lex_at(s, i, line).end() <= s.len(),
        line <= lex_at(s, i, line).line() <= line + (lex_at(s, i, line).end() - i),
{
    lemma_find_char(s, i + 1, '"');
    lemma_newlines_bound(s, i + 1, find_char(s, i + 1, '"'));
    lemma_name_end(s, i + 1);
    lemma_digits_end(s, i + 1);
    if i + 1 < s.len() {
        lemma_find_char(s, i + 2, '\n');
    }
    let j = digits_end(s, i);
    if j + 1 < s.len() {
        lemma_digits_end(s, j + 1);
    }
}

/// The next thing of note from a position on, blank space and comments skipped.
pub enum Step {
    /// The source has ended; the line counter stands at `line`.
    End { line: int },
    /// A token that starts at `start`.
    Token { kind: TokenKind, payload: Seq<char>, start: int, end: int, line: int },
    /// An error that starts at `start`.
    Error { message: Seq<char>, start: int, end: int, line: int },
}

/// The next token or error of `s` from position `i` on.
pub open spec fn next_at(s: Seq<char>, i: int, line: int) -> Step
    decreases s.len() - i,
{
    if 0 <= i < s.len() {
        match lex_at(s, i, line) {
            Lexed::Token { kind, payload, end, line } => Step::Token {
                kind,
                payload,
                start: i,
                end,
                line,
            },
            Lexed::Error { message, end, line } => Step::Error { message, start: i, end, line },
            Lexed::Skip { end, line: line_after } => {
                if i < end <= s.len() {
                    next_at(s, end, line_after)
                } else {
                    Step::End { line }
                }
            },
        }
    } else {
        Step::End { line }
    }
}

/// A scanner error as contracts see it.
pub struct LexErrorView {
    pub message: Seq<char>,
    pub span: Span,
}

/// The tokens and the errors of a source, and the line on which it ends.
pub struct Scanned {
    pub tokens: Seq<TokenView>,
    pub errors: Seq<LexErrorView>,
    pub line: int,
}

/// Everything that the scanner finds in `s` from position `i` on.
pub open spec fn scan_from(s: Seq<char>, i: int, line: int) -> Scanned
    decreases s.len() - i,
{
    match next_at(s, i, line) {
        Step::End { line } => Scanned { tokens: Seq::empty(), errors: Seq::empty(), line },
        Step::Token { kind, payload, start, end, line: line_after } => {
            if i < end <= s.len() {
                let rest = scan_from(s, end, line_after);
                Scanned {
                    tokens: seq![TokenView { kind, payload, span: span_of(s, start, end, line_after) }]
                        + rest.tokens,
                    errors: rest.errors,
                    line: rest.line,
                }
            } else {
                Scanned { tokens: Seq::empty(), errors: Seq::empty(), line }
            }
        },
        Step::Error { message, start, end, line: line_after } => {
            if i < end <= s.len() {
                let rest = scan_from(s, end, line_after);
                Scanned {
                    tokens: rest.tokens,
                    errors: seq![LexErrorView { message, span: span_of(s, start, end, line_after) }]
                        + rest.errors,
                    line: rest.line,
                }
            } else {
                Scanned { tokens: Seq::empty(), errors: Seq::empty(), line }
            }
        },
    }
}

/// The token that closes every token sequence: nothing, at the end of the
/// source, on its last line.
pub open spec fn eof_token(s: Seq<char>, line: int) -> TokenView {
    TokenView {
        kind: TokenKind::Eof,
        payload: Seq::empty(),
        span: span_of(s, s.len() as int, s.len() as int, line),
    }
}

/// What scanning the whole of `s` gives: its tokens and then the closing
/// token if nothing was wrong, else every error that was found.
pub open spec fn scan_result(s: Seq<char>) -> Result<Seq<TokenView>, Seq<LexErrorView>> {
    let all = scan_from(s, 0, 1);
    if all.errors.len() == 0 {
        Ok(all.tokens.push(eof_token(s, all.line)))
    } else {
        Err(all.errors)
    }
}

/// The next token or error is found inside the source, after the position
/// asked for.
pub proof fn lemma_next_bounds(s: Seq<char>, i: int, line: int)
    requires
        0 <= i <= s.len(),
    ensures
        match next_at(s, i, line) {
            Step::End { line: l } => line <= l <= line + (s.len() - i),
            Step::Token { start, end, line: l, .. } => i <= start < end <= s.len() && line <= l
                <= line + (end - i),
            Step::Error { start, end, line: l, .. } => i <= start < end <= s.len() && line <= l
                <= line + (end - i),
        },
    decreases s.len() - i,
{
    if i < s.len() {
        lemma_lex_progress(s, i, line);
        match lex_at(s, i, line) {
            Lexed::Skip { end, line: line_after } => {
                lemma_next_bounds(s, end, line_after);
            },
            _ => {},
        }
    }
}

/// The views of a sequence of scanner errors.
pub open spec fn error_views(errors: Seq<LexingError>) -> Seq<LexErrorView> {
    Seq::new(errors.len(), |j: int| LexErrorView { message: errors[j].message@, span: errors[j].span })
}

/// The views of a sequence of tokens.
pub open spec fn views(tokens: Seq<Token>) -> Seq<TokenView> {
    Seq::new(tokens.len(), |j: int| tokens[j]@)
}

/// A cursor over the characters of a source.
pub struct Scanner {
    chars: Vec<char>,
    start: usize,
    start_offset: usize,
    pos: usize,
    offset: usize,
    line: u32,
}

impl Scanner {
    /// The characters of the source.
    pub closed spec fn source(&self) -> Seq<char> {
        self.chars@
    }

    /// The index of the next character to read.
    pub closed spec fn position(&self) -> int {
        self.pos as int
    }

    /// The line on which the next character stands.
    pub closed spec fn current_line(&self) -> int {
        self.line as int
    }

    /// The cursor is inside a source of acceptable length, and its byte
    /// offsets are those of its character positions.
    pub closed spec fn wf(&self) -> bool {
        &&& self.chars.len() <= MAX_SOURCE_CHARS
        &&& self.start <= self.pos <= self.chars.len()
        &&& self.offset == byte_len(self.chars@.take(self.pos as int))
        &&& self.start_offset == byte_len(self.chars@.take(self.start as int))
        &&& 1 <= self.line <= 1 + self.pos
    }

    /// A scanner at the start of `source`, or nothing if `source` is longer
    /// than [`MAX_SOURCE_CHARS`].
    pub fn new(source: &str) -> (r: Option<Self>)
        ensures
            r is Some <==> source@.len() <= MAX_SOURCE_CHARS,
            r matches Some(scanner) ==> scanner.wf() && scanner.source() == source@
                && scanner.position() == 0 && scanner.current_line() == 1,
    {
        let chars = chars_of(source);
        if chars.len() > MAX_SOURCE_CHARS {
            return None;
        }
        assert(chars@.take(0) =~= Seq::<char>::empty());
        Some(Scanner { chars, start: 0, start_offset: 0, pos: 0, offset: 0, line: 1 })
    }

    fn peek(&self) -> (c: Option<char>)
        requires
            self.wf(),
        ensures
            c == (if self.pos < self.chars.len() {
                Some(self.chars@[self.pos as int])
            } else {
                None
            }),
    {
        if self.pos < self.chars.len() {
            Some(self.chars[self.pos])
        } else {
            None
        }
    }

    fn peek_nth(&self, n: usize) -> (c: Option<char>)
        requires
            self.wf(),
            n <= 1,
        ensures
            c == (if self.pos + n < self.chars.len() {
                Some(self.chars@[self.pos + n])
            } else {
                None
            }),
    {
        if self.pos + n < self.chars.len() {
            Some(self.chars[self.pos + n])
        } else {
            None
        }
    }

    fn advance(&mut self) -> (c: char)
        requires
            old(self).wf(),
            old(self).pos < old(self).chars.len(),
        ensures
            final(self).wf(),
            c == old(self).chars@[old(self).pos as int],
            final(self).pos == old(self).pos + 1,
            final(self).chars == old(self).chars,
            final(self).start == old(self).start,
            final(self).start_offset == old(self).start_offset,
            final(self).line == old(self).line,
    {
        let c = self.chars[self.pos];
        proof {
            lemma_byte_len_step(self.chars@, self.pos as int);
            lemma_byte_len_monotonic(self.chars@, 0, self.pos as int);
            assert(self.chars@.take(0) =~= Seq::<char>::empty());
        }
        self.offset = self.offset + char_width(c);
        self.pos = self.pos + 1;
        c
    }

    fn advance_checked(&mut self) -> (c: Option<char>)
        requires
            old(self).wf(),
        ensures
            final(self).wf(),
            final(self).chars == old(self).chars,
            final(self).start == old(self).start,
            final(self).start_offset == old(self).start_offset,
            final(self).line == old(self).line,
            old(self).pos < old(self).chars.len() ==> c
                == Some(old(self).chars@[old(self).pos as int])
                && final(self).pos == old(self).pos + 1,
            old(self).pos >= old(self).chars.len() ==> c is None && final(self).pos
                == old(self).pos,
    {
        if self.pos < self.chars.len() {
            Some(self.advance())
        } else {
            None
        }
    }

    fn matches(&mut self, expected: char) -> (b: bool)
        requires
            old(self).wf(),
        ensures
            final(self).wf(),
            final(self).chars == old(self).chars,
            final(self).start == old(self).start,
            final(self).start_offset == old(self).start_offset,
            final(self).line == old(self).line,
            b == (old(self).pos < old(self).chars.len() && old(self).chars@[old(self).pos as int]
                == expected),
            final(self).pos == old(self).pos + if b {
                1int
            } else {
                0int
            },
    {
        match self.peek() {
            Some(c) => {
                if c == expected {
                    self.advance();
                    true
                } else {
                    false
                }
            },
            None => false,
        }
    }

    fn make_span(&self) -> (s: Span)
        requires
            self.wf(),
        ensures
            s == span_of(self.chars@, self.start as int, self.pos as int, self.line as int),
    {
        Span {
            start: self.start_offset,
            end: self.offset,
            line_start: self.line,
            line_end: self.line,
        }
    }

    fn make_token(&self, token: TokenType) -> (t: Token)
        requires
            self.wf(),
        ensures
            t.ty == token,
            t.span == span_of(self.chars@, self.start as int, self.pos as int, self.line as int),
    {
        Token { ty: token, span: self.make_span() }
    }

    /// Reads on to the first character that is not `stop`, counting lines.
    fn skip_to(&mut self, stop: char, count_lines: bool)
        requires
            old(self).wf(),
        ensures
            final(self).wf(),
            final(self).chars == old(self).chars,
            final(self).start == old(self).start,
            final(self).start_offset == old(self).start_offset,
            final(self).pos == find_char(old(self).chars@, old(self).pos as int, stop),
            final(self).line == old(self).line + if count_lines {
                newlines(old(self).chars@, old(self).pos as int, final(self).pos as int)
            } else {
                0nat
            },
    {
        let ghost from = self.pos as int;
        let ghost line0 = self.line as int;
        while self.pos < self.chars.len() && self.chars[self.pos] != stop
            invariant
                self.wf(),
                self.chars == old(self).chars,
                self.start == old(self).start,
                self.start_offset == old(self).start_offset,
                from == old(self).pos,
                line0 == old(self).line,
                from <= self.pos <= self.chars.len(),
                find_char(self.chars@, self.pos as int, stop) == find_char(self.chars@, from, stop),
                self.line == line0 + if count_lines {
                    newlines(self.chars@, from, self.pos as int)
                } else {
                    0nat
                },
                self.line <= 1 + from + if count_lines {
                    newlines(self.chars@, from, self.pos as int)
                } else {
                    0nat
                },
            decreases self.chars.len() - self.pos,
        {
            proof {
                lemma_newlines_bound(self.chars@, from, self.pos as int);
            }
            let c = self.advance();
            if count_lines && c == '\n' {
                self.line = self.line + 1;
            }
            proof {
                lemma_newlines_bound(self.chars@, from, self.pos as int);
            }
        }
    }

    fn skip_digits(&mut self)
        requires
            old(self).wf(),
        ensures
            final(self).wf(),
            final(self).chars == old(self).chars,
            final(self).start == old(self).start,
            final(self).start_offset == old(self).start_offset,
            final(self).line == old(self).line,
            final(self).pos == digits_end(old(self).chars@, old(self).pos as int),
    {
        while self.pos < self.chars.len() && is_ascii_digit(self.chars[self.pos])
            invariant
                self.wf(),
                self.chars == old(self).chars,
                self.start == old(self).start,
                self.start_offset == old(self).start_offset,
                self.line == old(self).line,
                old(self).pos <= self.pos <= self.chars.len(),
                digits_end(self.chars@, self.pos as int) == digits_end(
                    self.chars@,
                    old(self).pos as int,
                ),
            decreases self.chars.len() - self.pos,
        {
            self.advance();
        }
    }

    fn identifier(&mut self) -> (ty: TokenType)
        requires
            old(self).wf(),
            old(self).start < old(self).pos,
        ensures
            final(self).wf(),
            final(self).chars == old(self).chars,
            final(self).start == old(self).start,
            final(self).start_offset == old(self).start_offset,
            final(self).line == old(self).line,
            final(self).pos == name_end(old(self).chars@, old(self).pos as int),
            ({
                let name = old(self).chars@.subrange(old(self).start as int, final(self).pos as int);
                match keyword_kind(name) {
                    Some(kind) => ty.kind_spec() == kind && ty.payload() == Seq::<char>::empty(),
                    None => ty.kind_spec() == TokenKind::Identifier && ty.payload() == name,
                }
            }),
    {
        while self.pos < self.chars.len() && continues(self.chars[self.pos])
            invariant
                self.wf(),
                self.chars == old(self).chars,
                self.start == old(self).start,
                self.start_offset == old(self).start_offset,
                self.line == old(self).line,
                old(self).pos <= self.pos <= self.chars.len(),
                name_end(self.chars@, self.pos as int) == name_end(
                    self.chars@,
                    old(self).pos as int,
                ),
            decreases self.chars.len() - self.pos,
        {
            self.advance();
        }
        let ident = string_of(&self.chars, self.start, self.pos);
        match keyword(ident.as_str()) {
            Some(ty) => ty,
            None => TokenType::Identifier(ident),
        }
    }

    fn string(&mut self) -> (r: Result<TokenType, LexingError>)
        requires
            old(self).wf(),
            old(self).pos == old(self).start + 1,
        ensures
            final(self).wf(),
            final(self).chars == old(self).chars,
            final(self).start == old(self).start,
            final(self).start_offset == old(self).start_offset,
            ({
                let s = old(self).chars@;
                let close = find_char(s, old(self).pos as int, '"');
                &&& final(self).line == old(self).line + newlines(s, old(self).pos as int, close)
                &&& close < s.len() ==> final(self).pos == close + 1 && (r matches Ok(ty)
                    && ty.kind_spec() == TokenKind::String && ty.payload() == s.subrange(
                    old(self).pos as int,
                    close,
                ))
                &&& close >= s.len() ==> final(self).pos == close && (r matches Err(e) && e.message@
                    == "Unterminated string."@ && e.span == span_of(
                    s,
                    old(self).start as int,
                    close,
                    final(self).line as int,
                ))
            }),
    {
        proof {
            lemma_find_char(self.chars@, self.pos as int, '"');
        }
        self.skip_to('"', true);
        let close = self.pos;
        match self.advance_checked() {
            None => Err(LexingError::new(self.make_span(), String::from_str("Unterminated string."))),
            Some(_) => Ok(TokenType::String(string_of(&self.chars, self.start + 1, close))),
        }
    }

    fn number(&mut self) -> (ty: TokenType)
        requires
            old(self).wf(),
            old(self).pos == old(self).start + 1,
            is_digit(old(self).chars@[old(self).start as int]),
        ensures
            final(self).wf(),
            final(self).chars == old(self).chars,
            final(self).start == old(self).start,
            final(self).start_offset == old(self).start_offset,
            final(self).line == old(self).line,
            final(self).pos == number_end(old(self).chars@, old(self).start as int),
            ty.kind_spec() == TokenKind::Number,
            ty.payload()
                == old(self).chars@.subrange(old(self).start as int, final(self).pos as int),
    {
        self.skip_digits();
        let after_dot = match self.peek_nth(1) {
            Some(c) => is_ascii_digit(c),
            None => false,
        };
        let at_dot = match self.peek() {
            Some(c) => c == '.',
            None => false,
        };
        if at_dot && after_dot {
            self.advance();
            self.skip_digits();
        }
        TokenType::Number(string_of(&self.chars, self.start, self.pos))
    }

    /// Reads what stands at the cursor.
    fn lex(&mut self) -> (r: Result<Option<TokenType>, LexingError>)
        requires
            old(self).wf(),
            old(self).pos < old(self).chars.len(),
        ensures
            final(self).wf(),
            final(self).chars == old(self).chars,
            final(self).start == old(self).pos,
            ({
                let s = old(self).chars@;
                let i = old(self).pos as int;
                let found = lex_at(s, i, old(self).line as int);
                &&& final(self).pos == found.end()
                &&& final(self).line == found.line()
                &&& match found {
                    Lexed::Token { kind, payload, .. } => r matches Ok(Some(ty)) && ty.kind_spec()
                        == kind && ty.payload() == payload,
                    Lexed::Skip { .. } => r matches Ok(None),
                    Lexed::Error { message, end, line } => r matches Err(e) && e.message@ == message
                        && e.span == span_of(s, i, end, line),
                }
            }),
    {
        self.start = self.pos;
        self.start_offset = self.offset;
        proof {
            lemma_lex_progress(self.chars@, self.pos as int, self.line as int);
        }
        let c = self.advance();
        if c == '(' {
            Ok(Some(TokenType::LeftParen))
        } else if c == ')' {
            Ok(Some(TokenType::RightParen))
        } else if c == '{' {
            Ok(Some(TokenType::LeftBrace))
        } else if c == '}' {
            Ok(Some(TokenType::RightBrace))
        } else if c == ',' {
            Ok(Some(TokenType::Comma))
        } else if c == '.' {
            Ok(Some(TokenType::Dot))
        } else if c == '-' {
            Ok(Some(TokenType::Minus))
        } else if c == '+' {
            Ok(Some(TokenType::Plus))
        } else if c == ';' {
            Ok(Some(TokenType::Semicolon))
        } else if c == '*' {
            Ok(Some(TokenType::Star))
        } else if c == '!' {
            if self.matches('=') {
                Ok(Some(TokenType::BangEqual))
            } else {
                Ok(Some(TokenType::Bang))
            }
        } else if c == '=' {
            if self.matches('=') {
                Ok(Some(TokenType::EqualEqual))
            } else {
                Ok(Some(TokenType::Equal))
            }
        } else if c == '<' {
            if self.matches('=') {
                Ok(Some(TokenType::LessEqual))
            } else {
                Ok(Some(TokenType::Less))
            }
        } else if c == '>' {
            if self.matches('=') {
                Ok(Some(TokenType::GreaterEqual))
            } else {
                Ok(Some(TokenType::Greater))
            }
        } else if c == '/' {
            if self.matches('/') {
                self.skip_to('\n', false);
                Ok(None)
            } else {
                Ok(Some(TokenType::Slash))
            }
        } else if c == ' ' || c == '\r' || c == '\t' {
            Ok(None)
        } else if c == '\n' {
            self.line = self.line + 1;
            Ok(None)
        } else if c == '"' {
            match self.string() {
                Ok(ty) => Ok(Some(ty)),
                Err(e) => Err(e),
            }
        } else if is_ascii_digit(c) {
            Ok(Some(self.number()))
        } else if is_alphabetic(c) || c == '_' {
            Ok(Some(self.identifier()))
        } else {
            Err(LexingError::new(self.make_span(), String::from_str("Unexpected character.")))
        }
    }

    /// The next token, `None` at the end of the source, or the error that
    /// stands where a token should.
    pub fn scan_token(&mut self) -> (r: Result<Option<Token>, LexingError>)
        requires
            old(self).wf(),
        ensures
            final(self).wf(),
            final(self).source() == old(self).source(),
            match next_at(old(self).source(), old(self).position(), old(self).current_line()) {
                Step::End { line } => r matches Ok(None) && final(self).position()
                    == final(self).source().len() && final(self).current_line() == line,
                Step::Token { kind, payload, start, end, line } => final(self).position() == end
                    && final(self).current_line() == line && (r matches Ok(Some(t)) && t@
                    == TokenView {
                    kind,
                    payload,
                    span: span_of(old(self).source(), start, end, line),
                }),
                Step::Error { message, start, end, line } => final(self).position() == end
                    && final(self).current_line() == line && (r matches Err(e) && e.message@
                    == message && e.span == span_of(old(self).source(), start, end, line)),
            },
    {
        while self.pos < self.chars.len()
            invariant
                self.wf(),
                self.chars == old(self).chars,
                next_at(self.chars@, self.pos as int, self.line as int) == next_at(
                    old(self).chars@,
                    old(self).pos as int,
                    old(self).line as int,
                ),
            decreases self.chars.len() - self.pos,
        {
            proof {
                lemma_lex_progress(self.chars@, self.pos as int, self.line as int);
            }
            match self.lex() {
                Ok(Some(ty)) => {
                    return Ok(Some(self.make_token(ty)));
                },
                Ok(None) => {},
                Err(e) => {
                    return Err(e);
                },
            }
        }
        Ok(None)
    }

    /// As [`Scanner::scan_token`], for callers that loop until `None`.
    pub fn next_token(&mut self) -> (r: Option<Result<Token, LexingError>>)
        requires
            old(self).wf(),
        ensures
            final(self).wf(),
            final(self).source() == old(self).source(),
            match next_at(old(self).source(), old(self).position(), old(self).current_line()) {
                Step::End { line } => r is None && final(self).position()
                    == final(self).source().len() && final(self).current_line() == line,
                Step::Token { kind, payload, start, end, line } => final(self).position() == end
                    && final(self).current_line() == line && (r matches Some(Ok(t)) && t@
                    == TokenView {
                    kind,
                    payload,
                    span: span_of(old(self).source(), start, end, line),
                }),
                Step::Error { message, start, end, line } => final(self).position() == end
                    && final(self).current_line() == line && (r matches Some(Err(e)) && e.message@
                    == message && e.span == span_of(old(self).source(), start, end, line)),
            },
    {
        match self.scan_token() {
            Ok(Some(t)) => Some(Ok(t)),
            Ok(None) => None,
            Err(e) => Some(Err(e)),
        }
    }

    /// Scans the rest of the source: every token and then the closing token,
    /// or, if anything was wrong, every error.
    pub fn scan_tokens(self) -> (r: Result<Vec<Token>, Vec<LexingError>>)
        requires
            self.wf(),
        ensures
            ({
                let all = scan_from(self.source(), self.position(), self.current_line());
                match r {
                    Ok(tokens) => all.errors.len() == 0 && views(tokens@) == all.tokens.push(
                        eof_token(self.source(), all.line),
                    ),
                    Err(errors) => all.errors.len() > 0 && error_views(errors@) == all.errors,
                }
            }),
    {
        let mut scanner = self;
        let mut tokens: Vec<Token> = Vec::new();
        let mut errors: Vec<LexingError> = Vec::new();
        let ghost s = self.chars@;
        let ghost all = scan_from(s, self.pos as int, self.line as int);
        loop
            invariant_except_break
                scanner.wf(),
                scanner.chars@ == s,
                s == self.chars@,
                all == scan_from(s, self.pos as int, self.line as int),
                ({
                    let rest = scan_from(s, scanner.pos as int, scanner.line as int);
                    &&& all.tokens == views(tokens@) + rest.tokens
                    &&& all.errors == error_views(errors@) + rest.errors
                    &&& all.line == rest.line
                }),
            ensures
                scanner.wf(),
                scanner.chars@ == s,
                all.tokens == views(tokens@),
                all.errors == error_views(errors@),
                all.line == scanner.line,
                scanner.pos == scanner.chars.len(),
            decreases scanner.chars.len() - scanner.pos,
        {
            proof {
                lemma_next_bounds(s, scanner.pos as int, scanner.line as int);
            }
            let ghost before = scanner;
            let ghost tokens_before = tokens@;
            let ghost errors_before = errors@;
            match scanner.scan_token() {
                Ok(Some(token)) => {
                    let ghost view = token@;
                    tokens.push(token);
                    proof {
                        let rest0 = scan_from(s, before.pos as int, before.line as int);
                        let rest1 = scan_from(s, scanner.pos as int, scanner.line as int);
                        assert(rest0.tokens == seq![view] + rest1.tokens);
                        assert(views(tokens@) =~= views(tokens_before).push(view));
                        assert(views(tokens_before) + rest0.tokens =~= views(tokens@)
                            + rest1.tokens);
                    }
                },
                Ok(None) => {
                    proof {
                        let rest0 = scan_from(s, before.pos as int, before.line as int);
                        assert(views(tokens@) + rest0.tokens =~= views(tokens@));
                        assert(error_views(errors@) + rest0.errors =~= error_views(errors@));
                    }
                    break ;
                },
                Err(err) => {
                    let ghost view = LexErrorView { message: err.message@, span: err.span };
                    errors.push(err);
                    proof {
                        let rest0 = scan_from(s, before.pos as int, before.line as int);
                        let rest1 = scan_from(s, scanner.pos as int, scanner.line as int);
                        assert(rest0.errors == seq![view] + rest1.errors);
                        assert(error_views(errors@) =~= error_views(errors_before).push(view));
                        assert(error_views(errors_before) + rest0.errors =~= error_views(errors@)
                            + rest1.errors);
                    }
                },
            }
        }
        if errors.len() > 0 {
            return Err(errors);
        }
        proof {
            assert(s.take(s.len() as int) =~= s);
        }
        let end = Span {
            start: scanner.offset,
            end: scanner.offset,
            line_start: scanner.line,
            line_end: scanner.line,
        };
        tokens.push(Token { ty: TokenType::Eof, span: end });
        Ok(tokens)
    }
}

fn is_ascii_digit(c: char) -> (b: bool)
    ensures
        b == is_digit(c),
{
    '0' <= c && c <= '9'
}

fn continues(c: char) -> (b: bool)
    ensures
        b == continues_name(c),
{
    is_alphanumeric(c) || c == '_'
}

/// Scans `source`. A source of more than [`MAX_SOURCE_CHARS`] characters is
/// answered with a single error that covers nothing.
pub fn scan(source: &str) -> (r: Result<Vec<Token>, Vec<LexingError>>)
    ensures
        source@.len() <= MAX_SOURCE_CHARS ==> match (r, scan_result(source@)) {
            (Ok(tokens), Ok(expected)) => views(tokens@) == expected,
            (Err(errors), Err(expected)) => error_views(errors@) == expected,
            _ => false,
        },
        source@.len() > MAX_SOURCE_CHARS ==> (r matches Err(errors) && errors@.len() == 1
            && errors@[0].span == Span::origin() && errors@[0].message@ == "Source is too long."@),
        r matches Ok(tokens) ==> (tokens@.len() > 0 && tokens@.last().ty.kind_spec()
            == TokenKind::Eof),
        r matches Err(errors) ==> errors@.len() > 0,
{
    match Scanner::new(source) {
        Some(scanner) => {
            let r = scanner.scan_tokens();
            proof {
                let all = scan_from(source@, 0, 1);
                if let Ok(tokens) = &r {
                    assert(views(tokens@).len() == all.tokens.len() + 1);
                    assert(views(tokens@).last() == tokens@.last()@);
                }
                if let Err(errors) = &r {
                    assert(error_views(errors@).len() == errors@.len());
                }
            }
            r
        },
        None => {
            let mut errors: Vec<LexingError> = Vec::new();
            errors.push(LexingError::new(Span::default(), String::from_str("Source is too long.")));
            Err(errors)
        },
    }
}

} // verus!
