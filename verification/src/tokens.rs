//! Tokens.

use crate::span::Span;
use crate::span::Spanned;
use crate::text::push_char;
use crate::text::push_str;
use vstd::prelude::*;
use vstd::string::StringExecFns;

verus! {

/// What a token is, without the text that a literal or a name carries.
#[derive(Debug, Clone, Copy, PartialEq, Eq, Structural)]
pub enum TokenKind {
    LeftParen,
    RightParen,
    LeftBrace,
    RightBrace,
    Comma,
    Dot,
    Minus,
    Plus,
    Semicolon,
    Slash,
    Star,
    Bang,
    BangEqual,
    Equal,
    EqualEqual,
    Greater,
    GreaterEqual,
    Less,
    LessEqual,
    Identifier,
    String,
    Number,
    And,
    Class,
    Else,
    False,
    Fun,
    For,
    If,
    Nil,
    Or,
    Print,
    Return,
    Super,
    This,
    True,
    Var,
    While,
    Eof,
}

/// What a token is. A name carries its spelling, a string literal its
/// contents without the quotes, and a number literal its digits as written.
#[derive(Debug, PartialEq)]
pub enum TokenType {
    LeftParen,
    RightParen,
    LeftBrace,
    RightBrace,
    Comma,
    Dot,
    Minus,
    Plus,
    Semicolon,
    Slash,
    Star,
    Bang,
    BangEqual,
    Equal,
    EqualEqual,
    Greater,
    GreaterEqual,
    Less,
    LessEqual,
    Identifier(String),
    String(String),
    Number(String),
    And,
    Class,
    Else,
    False,
    Fun,
    For,
    If,
    Nil,
    Or,
    Print,
    Return,
    Super,
    This,
    True,
    Var,
    While,
    Eof,
}

/// The fixed spelling of a token kind; empty for the three kinds that carry
/// their own text.
pub open spec fn kind_text(kind: TokenKind) -> Seq<char> {
    match kind {
        TokenKind::LeftParen => "("@,
        TokenKind::RightParen => ")"@,
        TokenKind::LeftBrace => "{{"@,
        TokenKind::RightBrace => "}}"@,
        TokenKind::Comma => ","@,
        TokenKind::Dot => "."@,
        TokenKind::Minus => "-"@,
        TokenKind::Plus => "+"@,
        TokenKind::Semicolon => ";"@,
        TokenKind::Slash => "/"@,
        TokenKind::Star => "*"@,
        TokenKind::Bang => "!"@,
        TokenKind::BangEqual => "!="@,
        TokenKind::Equal => "="@,
        TokenKind::EqualEqual => "=="@,
        TokenKind::Greater => ">"@,
        TokenKind::GreaterEqual => ">="@,
        TokenKind::Less => "<"@,
        TokenKind::LessEqual => "<="@,
        TokenKind::Identifier => Seq::empty(),
        TokenKind::String => Seq::empty(),
        TokenKind::Number => Seq::empty(),
        TokenKind::And => "and"@,
        TokenKind::Class => "class"@,
        TokenKind::Else => "else"@,
        TokenKind::False => "false"@,
        TokenKind::Fun => "fun"@,
        TokenKind::For => "for"@,
        TokenKind::If => "if"@,
        TokenKind::Nil => "nil"@,
        TokenKind::Or => "or"@,
        TokenKind::Print => "print"@,
        TokenKind::Return => "return"@,
        TokenKind::Super => "super"@,
        TokenKind::This => "this"@,
        TokenKind::True => "true"@,
        TokenKind::Var => "var"@,
        TokenKind::While => "while"@,
        TokenKind::Eof => "end of file"@,
    }
}

/// The reserved word spelled `s`, if there is one.
pub open spec fn keyword_kind(s: Seq<char>) -> Option<TokenKind> {
    if s == "and"@ {
        Some(TokenKind::And)
    } else if s == "class"@ {
        Some(TokenKind::Class)
    } else if s == "else"@ {
        Some(TokenKind::Else)
    } else if s == "false"@ {
        Some(TokenKind::False)
    } else if s == "fun"@ {
        Some(TokenKind::Fun)
    } else if s == "for"@ {
        Some(TokenKind::For)
    } else if s == "if"@ {
        Some(TokenKind::If)
    } else if s == "nil"@ {
        Some(TokenKind::Nil)
    } else if s == "or"@ {
        Some(TokenKind::Or)
    } else if s == "print"@ {
        Some(TokenKind::Print)
    } else if s == "return"@ {
        Some(TokenKind::Return)
    } else if s == "super"@ {
        Some(TokenKind::Super)
    } else if s == "this"@ {
        Some(TokenKind::This)
    } else if s == "true"@ {
        Some(TokenKind::True)
    } else if s == "var"@ {
        Some(TokenKind::Var)
    } else if s == "while"@ {
        Some(TokenKind::While)
    } else {
        None
    }
}

impl TokenType {
    /// The kind of this token.
    pub open spec fn kind_spec(&self) -> TokenKind {
        match self {
            TokenType::LeftParen => TokenKind::LeftParen,
            TokenType::RightParen => TokenKind::RightParen,
            TokenType::LeftBrace => TokenKind::LeftBrace,
            TokenType::RightBrace => TokenKind::RightBrace,
            TokenType::Comma => TokenKind::Comma,
            TokenType::Dot => TokenKind::Dot,
            TokenType::Minus => TokenKind::Minus,
            TokenType::Plus => TokenKind::Plus,
            TokenType::Semicolon => TokenKind::Semicolon,
            TokenType::Slash => TokenKind::Slash,
            TokenType::Star => TokenKind::Star,
            TokenType::Bang => TokenKind::Bang,
            TokenType::BangEqual => TokenKind::BangEqual,
            TokenType::Equal => TokenKind::Equal,
            TokenType::EqualEqual => TokenKind::EqualEqual,
            TokenType::Greater => TokenKind::Greater,
            TokenType::GreaterEqual => TokenKind::GreaterEqual,
            TokenType::Less => TokenKind::Less,
            TokenType::LessEqual => TokenKind::LessEqual,
            TokenType::Identifier(_) => TokenKind::Identifier,
            TokenType::String(_) => TokenKind::String,
            TokenType::Number(_) => TokenKind::Number,
            TokenType::And => TokenKind::And,
            TokenType::Class => TokenKind::Class,
            TokenType::Else => TokenKind::Else,
            TokenType::False => TokenKind::False,
            TokenType::Fun => TokenKind::Fun,
            TokenType::For => TokenKind::For,
            TokenType::If => TokenKind::If,
            TokenType::Nil => TokenKind::Nil,
            TokenType::Or => TokenKind::Or,
            TokenType::Print => TokenKind::Print,
            TokenType::Return => TokenKind::Return,
            TokenType::Super => TokenKind::Super,
            TokenType::This => TokenKind::This,
            TokenType::True => TokenKind::True,
            TokenType::Var => TokenKind::Var,
            TokenType::While => TokenKind::While,
            TokenType::Eof => TokenKind::Eof,
        }
    }

    /// The text that this token carries; empty unless it is a name, a string
    /// or a number.
    pub open spec fn payload(self) -> Seq<char> {
        match self {
            TokenType::Identifier(s) => s@,
            TokenType::String(s) => s@,
            TokenType::Number(s) => s@,
            _ => Seq::empty(),
        }
    }

    /// How the token is shown in messages: a name or a number as written, a
    /// string between double quotes, anything else by its fixed spelling.
    pub open spec fn text(self) -> Seq<char> {
        match self {
            TokenType::Identifier(s) => s@,
            TokenType::Number(s) => s@,
            TokenType::String(s) => seq!['"'] + s@ + seq!['"'],
            _ => kind_text(self.kind_spec()),
        }
    }

    /// The token type without a payload that has kind `kind`.
    pub open spec fn plain_spec(kind: TokenKind) -> TokenType {
        match kind {
            TokenKind::LeftParen => TokenType::LeftParen,
            TokenKind::RightParen => TokenType::RightParen,
            TokenKind::LeftBrace => TokenType::LeftBrace,
            TokenKind::RightBrace => TokenType::RightBrace,
            TokenKind::Comma => TokenType::Comma,
            TokenKind::Dot => TokenType::Dot,
            TokenKind::Minus => TokenType::Minus,
            TokenKind::Plus => TokenType::Plus,
            TokenKind::Semicolon => TokenType::Semicolon,
            TokenKind::Slash => TokenType::Slash,
            TokenKind::Star => TokenType::Star,
            TokenKind::Bang => TokenType::Bang,
            TokenKind::BangEqual => TokenType::BangEqual,
            TokenKind::Equal => TokenType::Equal,
            TokenKind::EqualEqual => TokenType::EqualEqual,
            TokenKind::Greater => TokenType::Greater,
            TokenKind::GreaterEqual => TokenType::GreaterEqual,
            TokenKind::Less => TokenType::Less,
            TokenKind::LessEqual => TokenType::LessEqual,
            TokenKind::And => TokenType::And,
            TokenKind::Class => TokenType::Class,
            TokenKind::Else => TokenType::Else,
            TokenKind::False => TokenType::False,
            TokenKind::Fun => TokenType::Fun,
            TokenKind::For => TokenType::For,
            TokenKind::If => TokenType::If,
            TokenKind::Nil => TokenType::Nil,
            TokenKind::Or => TokenType::Or,
            TokenKind::Print => TokenType::Print,
            TokenKind::Return => TokenType::Return,
            TokenKind::Super => TokenType::Super,
            TokenKind::This => TokenType::This,
            TokenKind::True => TokenType::True,
            TokenKind::Var => TokenType::Var,
            TokenKind::While => TokenType::While,
            _ => TokenType::Eof,
        }
    }

    #[verifier::when_used_as_spec(kind_spec)]
    pub fn kind(&self) -> (k: TokenKind)
        ensures
            k == self.kind_spec(),
    {
        match self {
            TokenType::LeftParen => TokenKind::LeftParen,
            TokenType::RightParen => TokenKind::RightParen,
            TokenType::LeftBrace => TokenKind::LeftBrace,
            TokenType::RightBrace => TokenKind::RightBrace,
            TokenType::Comma => TokenKind::Comma,
            TokenType::Dot => TokenKind::Dot,
            TokenType::Minus => TokenKind::Minus,
            TokenType::Plus => TokenKind::Plus,
            TokenType::Semicolon => TokenKind::Semicolon,
            TokenType::Slash => TokenKind::Slash,
            TokenType::Star => TokenKind::Star,
            TokenType::Bang => TokenKind::Bang,
            TokenType::BangEqual => TokenKind::BangEqual,
            TokenType::Equal => TokenKind::Equal,
            TokenType::EqualEqual => TokenKind::EqualEqual,
            TokenType::Greater => TokenKind::Greater,
            TokenType::GreaterEqual => TokenKind::GreaterEqual,
            TokenType::Less => TokenKind::Less,
            TokenType::LessEqual => TokenKind::LessEqual,
            TokenType::Identifier(_) => TokenKind::Identifier,
            TokenType::String(_) => TokenKind::String,
            TokenType::Number(_) => TokenKind::Number,
            TokenType::And => TokenKind::And,
            TokenType::Class => TokenKind::Class,
            TokenType::Else => TokenKind::Else,
            TokenType::False => TokenKind::False,
            TokenType::Fun => TokenKind::Fun,
            TokenType::For => TokenKind::For,
            TokenType::If => TokenKind::If,
            TokenType::Nil => TokenKind::Nil,
            TokenType::Or => TokenKind::Or,
            TokenType::Print => TokenKind::Print,
            TokenType::Return => TokenKind::Return,
            TokenType::Super => TokenKind::Super,
            TokenType::This => TokenKind::This,
            TokenType::True => TokenKind::True,
            TokenType::Var => TokenKind::Var,
            TokenType::While => TokenKind::While,
            TokenType::Eof => TokenKind::Eof,
        }
    }

    /// The token type of a kind that carries no text.
    pub fn plain(kind: TokenKind) -> (ty: TokenType)
        requires
            kind != TokenKind::Identifier,
            kind != TokenKind::String,
            kind != TokenKind::Number,
        ensures
            ty == TokenType::plain_spec(kind),
            ty.kind_spec() == kind,
            ty.payload() == Seq::<char>::empty(),
    {
        match kind {
            TokenKind::LeftParen => TokenType::LeftParen,
            TokenKind::RightParen => TokenType::RightParen,
            TokenKind::LeftBrace => TokenType::LeftBrace,
            TokenKind::RightBrace => TokenType::RightBrace,
            TokenKind::Comma => TokenType::Comma,
            TokenKind::Dot => TokenType::Dot,
            TokenKind::Minus => TokenType::Minus,
            TokenKind::Plus => TokenType::Plus,
            TokenKind::Semicolon => TokenType::Semicolon,
            TokenKind::Slash => TokenType::Slash,
            TokenKind::Star => TokenType::Star,
            TokenKind::Bang => TokenType::Bang,
            TokenKind::BangEqual => TokenType::BangEqual,
            TokenKind::Equal => TokenType::Equal,
            TokenKind::EqualEqual => TokenType::EqualEqual,
            TokenKind::Greater => TokenType::Greater,
            TokenKind::GreaterEqual => TokenType::GreaterEqual,
            TokenKind::Less => TokenType::Less,
            TokenKind::LessEqual => TokenType::LessEqual,
            TokenKind::And => TokenType::And,
            TokenKind::Class => TokenType::Class,
            TokenKind::Else => TokenType::Else,
            TokenKind::False => TokenType::False,
            TokenKind::Fun => TokenType::Fun,
            TokenKind::For => TokenType::For,
            TokenKind::If => TokenType::If,
            TokenKind::Nil => TokenType::Nil,
            TokenKind::Or => TokenType::Or,
            TokenKind::Print => TokenType::Print,
            TokenKind::Return => TokenType::Return,
            TokenKind::Super => TokenType::Super,
            TokenKind::This => TokenType::This,
            TokenKind::True => TokenType::True,
            TokenKind::Var => TokenType::Var,
            TokenKind::While => TokenType::While,
            _ => TokenType::Eof,
        }
    }

    pub fn as_str(&self) -> (s: String)
        ensures
            s@ == self.text(),
    {
        match self {
            TokenType::Identifier(name) => name.clone(),
            TokenType::Number(digits) => digits.clone(),
            TokenType::String(contents) => {
                let mut s = String::new();
                push_char(&mut s, '"');
                push_str(&mut s, contents.as_str());
                push_char(&mut s, '"');
                assert(s@ =~= seq!['"'] + contents@ + seq!['"']);
                s
            },
            TokenType::LeftParen => String::from_str("("),
            TokenType::RightParen => String::from_str(")"),
            TokenType::LeftBrace => String::from_str("{{"),
            TokenType::RightBrace => String::from_str("}}"),
            TokenType::Comma => String::from_str(","),
            TokenType::Dot => String::from_str("."),
            TokenType::Minus => String::from_str("-"),
            TokenType::Plus => String::from_str("+"),
            TokenType::Semicolon => String::from_str(";"),
            TokenType::Slash => String::from_str("/"),
            TokenType::Star => String::from_str("*"),
            TokenType::Bang => String::from_str("!"),
            TokenType::BangEqual => String::from_str("!="),
            TokenType::Equal => String::from_str("="),
            TokenType::EqualEqual => String::from_str("=="),
            TokenType::Greater => String::from_str(">"),
            TokenType::GreaterEqual => String::from_str(">="),
            TokenType::Less => String::from_str("<"),
            TokenType::LessEqual => String::from_str("<="),
            TokenType::And => String::from_str("and"),
            TokenType::Class => String::from_str("class"),
            TokenType::Else => String::from_str("else"),
            TokenType::False => String::from_str("false"),
            TokenType::Fun => String::from_str("fun"),
            TokenType::For => String::from_str("for"),
            TokenType::If => String::from_str("if"),
            TokenType::Nil => String::from_str("nil"),
            TokenType::Or => String::from_str("or"),
            TokenType::Print => String::from_str("print"),
            TokenType::Return => String::from_str("return"),
            TokenType::Super => String::from_str("super"),
            TokenType::This => String::from_str("this"),
            TokenType::True => String::from_str("true"),
            TokenType::Var => String::from_str("var"),
            TokenType::While => String::from_str("while"),
            TokenType::Eof => String::from_str("end of file"),
        }
    }
}

impl Clone for TokenType {
    fn clone(&self) -> (r: Self)
        ensures
            r == *self,
    {
        match self {
            TokenType::Identifier(s) => TokenType::Identifier(s.clone()),
            TokenType::String(s) => TokenType::String(s.clone()),
            TokenType::Number(s) => TokenType::Number(s.clone()),
            TokenType::LeftParen => TokenType::LeftParen,
            TokenType::RightParen => TokenType::RightParen,
            TokenType::LeftBrace => TokenType::LeftBrace,
            TokenType::RightBrace => TokenType::RightBrace,
            TokenType::Comma => TokenType::Comma,
            TokenType::Dot => TokenType::Dot,
            TokenType::Minus => TokenType::Minus,
            TokenType::Plus => TokenType::Plus,
            TokenType::Semicolon => TokenType::Semicolon,
            TokenType::Slash => TokenType::Slash,
            TokenType::Star => TokenType::Star,
            TokenType::Bang => TokenType::Bang,
            TokenType::BangEqual => TokenType::BangEqual,
            TokenType::Equal => TokenType::Equal,
            TokenType::EqualEqual => TokenType::EqualEqual,
            TokenType::Greater => TokenType::Greater,
            TokenType::GreaterEqual => TokenType::GreaterEqual,
            TokenType::Less => TokenType::Less,
            TokenType::LessEqual => TokenType::LessEqual,
            TokenType::And => TokenType::And,
            TokenType::Class => TokenType::Class,
            TokenType::Else => TokenType::Else,
            TokenType::False => TokenType::False,
            TokenType::Fun => TokenType::Fun,
            TokenType::For => TokenType::For,
            TokenType::If => TokenType::If,
            TokenType::Nil => TokenType::Nil,
            TokenType::Or => TokenType::Or,
            TokenType::Print => TokenType::Print,
            TokenType::Return => TokenType::Return,
            TokenType::Super => TokenType::Super,
            TokenType::This => TokenType::This,
            TokenType::True => TokenType::True,
            TokenType::Var => TokenType::Var,
            TokenType::While => TokenType::While,
            TokenType::Eof => TokenType::Eof,
        }
    }
}

/// The token type of the reserved word spelled `s`, if there is one.
pub open spec fn keyword_type(s: Seq<char>) -> Option<TokenType> {
    match keyword_kind(s) {
        Some(kind) => Some(TokenType::plain_spec(kind)),
        None => None,
    }
}

/// The token type of the reserved word spelled `s`, if there is one.
pub fn keyword(s: &str) -> (k: Option<TokenType>)
    ensures
        k == keyword_type(s@),
{
    let word = String::from_str(s);
    if word == String::from_str("and") {
        Some(TokenType::And)
    } else if word == String::from_str("class") {
        Some(TokenType::Class)
    } else if word == String::from_str("else") {
        Some(TokenType::Else)
    } else if word == String::from_str("false") {
        Some(TokenType::False)
    } else if word == String::from_str("fun") {
        Some(TokenType::Fun)
    } else if word == String::from_str("for") {
        Some(TokenType::For)
    } else if word == String::from_str("if") {
        Some(TokenType::If)
    } else if word == String::from_str("nil") {
        Some(TokenType::Nil)
    } else if word == String::from_str("or") {
        Some(TokenType::Or)
    } else if word == String::from_str("print") {
        Some(TokenType::Print)
    } else if word == String::from_str("return") {
        Some(TokenType::Return)
    } else if word == String::from_str("super") {
        Some(TokenType::Super)
    } else if word == String::from_str("this") {
        Some(TokenType::This)
    } else if word == String::from_str("true") {
        Some(TokenType::True)
    } else if word == String::from_str("var") {
        Some(TokenType::Var)
    } else if word == String::from_str("while") {
        Some(TokenType::While)
    } else {
        None
    }
}

/// A token: what it is and where it stands.
#[derive(Debug, PartialEq)]
pub struct Token {
    pub ty: TokenType,
    pub span: Span,
}

/// A token as contracts see it.
pub struct TokenView {
    pub kind: TokenKind,
    pub payload: Seq<char>,
    pub span: Span,
}

impl View for Token {
    type V = TokenView;

    open spec fn view(&self) -> TokenView {
        TokenView { kind: self.ty.kind_spec(), payload: self.ty.payload(), span: self.span }
    }
}

impl TokenView {
    /// How the token is shown in messages.
    pub open spec fn text(self) -> Seq<char> {
        match self.kind {
            TokenKind::Identifier => self.payload,
            TokenKind::Number => self.payload,
            TokenKind::String => seq!['"'] + self.payload + seq!['"'],
            _ => kind_text(self.kind),
        }
    }
}

impl Token {
    pub fn ty(&self) -> (ty: &TokenType)
        ensures
            *ty == self.ty,
    {
        &self.ty
    }

    pub fn as_str(&self) -> (s: String)
        ensures
            s@ == self@.text(),
    {
        self.ty.as_str()
    }
}

impl Clone for Token {
    fn clone(&self) -> (r: Self)
        ensures
            r == *self,
    {
        Token { ty: self.ty.clone(), span: self.span }
    }
}

impl Spanned for Token {
    open spec fn spanned(&self) -> Span {
        self.span
    }

    fn span(&self) -> (s: Span) {
        self.span
    }
}

/// The views of a sequence of tokens.
pub open spec fn token_views(tokens: Seq<Token>) -> Seq<TokenView> {
    tokens.map_values(|t: Token| t@)
}

} // verus!
