//! The grammar, as functions from a token sequence to syntax trees.
//!
//! Each function reads from a position of the token sequence and says what
//! the parser makes of the tokens there: a tree and the position after it,
//! or an error and the position at which the parser gave up.
//!
//! ```text
//! program     -> declaration* EOF
//! declaration -> funDecl | varDecl | statement
//! funDecl     -> "fun" IDENT "(" params? ")" block
//! varDecl     -> "var" IDENT ("=" expression)? ";"
//! statement   -> exprStmt | printStmt | returnStmt | block
//!              | ifStmt | whileStmt | forStmt
//! expression  -> assignment
//! assignment  -> IDENT "=" assignment | logic_or
//! logic_or    -> logic_and ("or" logic_and)*
//! logic_and   -> equality ("and" equality)*
//! equality    -> comparison (("!=" | "==") comparison)*
//! comparison  -> term ((">" | ">=" | "<" | "<=") term)*
//! term        -> factor (("-" | "+") factor)*
//! factor      -> unary (("/" | "*") unary)*
//! unary       -> ("!" | "-") unary | call
//! call        -> primary ("(" arguments? ")")*
//! primary     -> NUMBER | STRING | "true" | "false" | "nil"
//!              | "(" expression ")" | IDENT
//! ```

use crate::ast::ExprTree;
use crate::ast::LiteralView;
use crate::ast::StmtTree;
use crate::error::parsing::expected_message;
use crate::error::ParsingError;
use crate::span::Span;
use crate::tokens::kind_text;
use crate::tokens::TokenKind;
use crate::tokens::TokenView;
use vstd::prelude::*;

pub mod progress;

verus! {

/// The most parameters of a function and the most arguments of a call.
pub const MAX_ARITY: usize = 255;

/// A parser error as contracts see it.
pub struct ParseErrorView {
    pub message: Seq<char>,
    pub span: Span,
    pub should_sync: bool,
}

impl View for ParsingError {
    type V = ParseErrorView;

    open spec fn view(&self) -> ParseErrorView {
        ParseErrorView { message: self.message@, span: self.span, should_sync: self.should_sync }
    }
}

/// What the parser makes of the tokens at some position.
pub enum Parsed<T> {
    /// A value, and the position of the first token after it.
    Good { value: T, pos: int },
    /// An error, and the position at which the parser stopped reading.
    Bad { error: ParseErrorView, pos: int },
}

/// The statements of a program that parsed, and the errors in those that did not.
pub struct Program {
    pub statements: Seq<StmtTree>,
    pub errors: Seq<ParseErrorView>,
}

impl Program {
    /// No statements and no errors.
    pub open spec fn empty() -> Program {
        Program { statements: Seq::empty(), errors: Seq::empty() }
    }
}

/// The tokens of a program, and the closing token that reports its end.
pub struct Input {
    pub tokens: Seq<TokenView>,
    pub eof: TokenView,
}

/// The six levels of left-associative binary operators, loosest first. An
/// expression of the level after the last is a unary expression.
pub const LEVELS: u8 = 6;

/// Whether an operator of kind `kind` belongs to `level`.
pub open spec fn level_has(level: int, kind: TokenKind) -> bool {
    if level == 0 {
        kind == TokenKind::Or
    } else if level == 1 {
        kind == TokenKind::And
    } else if level == 2 {
        kind == TokenKind::BangEqual || kind == TokenKind::EqualEqual
    } else if level == 3 {
        kind == TokenKind::Greater || kind == TokenKind::GreaterEqual || kind == TokenKind::Less
            || kind == TokenKind::LessEqual
    } else if level == 4 {
        kind == TokenKind::Minus || kind == TokenKind::Plus
    } else if level == 5 {
        kind == TokenKind::Slash || kind == TokenKind::Star
    } else {
        false
    }
}

/// Whether a token of kind `kind` begins a declaration, so that error
/// recovery stops before it.
pub open spec fn starts_declaration(kind: TokenKind) -> bool {
    kind == TokenKind::Class || kind == TokenKind::For || kind == TokenKind::Fun || kind
        == TokenKind::If || kind == TokenKind::Print || kind == TokenKind::Return || kind
        == TokenKind::Var || kind == TokenKind::While
}

/// The literal that a token stands for, if it is one.
pub open spec fn literal_of(token: TokenView) -> Option<LiteralView> {
    match token.kind {
        TokenKind::Number => Some(LiteralView::Number(token.payload)),
        TokenKind::String => Some(LiteralView::String(token.payload)),
        TokenKind::True => Some(LiteralView::Boolean(true)),
        TokenKind::False => Some(LiteralView::Boolean(false)),
        TokenKind::Nil => Some(LiteralView::Nil),
        _ => None,
    }
}

/// The error that names what was expected at `found`.
pub open spec fn expected_error(what: Seq<char>, found: TokenView) -> ParseErrorView {
    ParseErrorView {
        message: expected_message(what, found.text()),
        span: found.span,
        should_sync: true,
    }
}

/// An error that is local to an expression: the parser goes on where it stands.
pub open spec fn local_error(message: Seq<char>, at: TokenView) -> ParseErrorView {
    ParseErrorView { message, span: at.span, should_sync: false }
}

impl Input {
    /// The kind of the token at `pos`, if there is a token.
    pub open spec fn peek(self, pos: int) -> Option<TokenKind> {
        if 0 <= pos < self.tokens.len() {
            Some(self.tokens[pos].kind)
        } else {
            None
        }
    }

    /// Whether the token at `pos` is of kind `kind`.
    pub open spec fn at(self, pos: int, kind: TokenKind) -> bool {
        self.peek(pos) == Some(kind)
    }

    /// The token at `pos`, or the closing token where the tokens have ended.
    pub open spec fn here(self, pos: int) -> TokenView {
        if 0 <= pos < self.tokens.len() {
            self.tokens[pos]
        } else {
            self.eof
        }
    }

    /// Whether `after` is a position of the input that lies after `pos`.
    pub open spec fn within(self, pos: int, after: int) -> bool {
        pos < after <= self.tokens.len()
    }

    /// What stands for a reading that made no progress. No reading does:
    /// the guards that lead here only serve to show that these definitions
    /// end, and [`progress`] proves that they always hold.
    pub open spec fn stuck<T>(self, pos: int) -> Parsed<T> {
        Parsed::Bad { error: expected_error(Seq::empty(), self.eof), pos }
    }

    /// Takes the next token, which must satisfy `accept`; `what` names what
    /// was expected. A token that does not fit is taken all the same.
    pub open spec fn consume_with(
        self,
        pos: int,
        accept: spec_fn(TokenKind) -> bool,
        what: Seq<char>,
    ) -> Parsed<TokenView> {
        if 0 <= pos < self.tokens.len() {
            if accept(self.tokens[pos].kind) {
                Parsed::Good { value: self.tokens[pos], pos: pos + 1 }
            } else {
                Parsed::Bad { error: expected_error(what, self.tokens[pos]), pos: pos + 1 }
            }
        } else {
            Parsed::Bad { error: expected_error(what, self.eof), pos }
        }
    }

    /// Takes the next token, which must be of kind `kind`.
    pub open spec fn consume(self, pos: int, kind: TokenKind) -> Parsed<TokenView> {
        self.consume_with(pos, |k: TokenKind| k == kind, kind_text(kind))
    }

    /// Takes a name.
    pub open spec fn consume_name(self, pos: int, what: Seq<char>) -> Parsed<TokenView> {
        self.consume_with(pos, |k: TokenKind| k == TokenKind::Identifier, what)
    }

    /// `primary`, at rank 0 of the expressions that start at `pos`.
    pub open spec fn primary(self, pos: int) -> Parsed<ExprTree>
        decreases self.tokens.len() - pos, 0int,
    {
        if 0 <= pos < self.tokens.len() {
            let token = self.tokens[pos];
            if literal_of(token) is Some {
                Parsed::Good { value: ExprTree::Literal(token, literal_of(token)->0), pos: pos + 1 }
            } else if token.kind == TokenKind::LeftParen {
                match self.expression(pos + 1) {
                    Parsed::Good { value, pos: after } => match self.consume(
                        after,
                        TokenKind::RightParen,
                    ) {
                        Parsed::Good { pos: end, .. } => Parsed::Good {
                            value: ExprTree::Grouping(Box::new(value)),
                            pos: end,
                        },
                        Parsed::Bad { error, pos: end } => Parsed::Bad { error, pos: end },
                    },
                    Parsed::Bad { error, pos: end } => Parsed::Bad { error, pos: end },
                }
            } else if token.kind == TokenKind::Identifier {
                Parsed::Good { value: ExprTree::Variable(token), pos: pos + 1 }
            } else {
                Parsed::Bad { error: expected_error("expression"@, token), pos: pos + 1 }
            }
        } else {
            Parsed::Bad { error: expected_error("expression"@, self.eof), pos }
        }
    }

    /// One or more expressions with commas between them.
    pub open spec fn expression_list(self, pos: int) -> Parsed<Seq<ExprTree>>
        decreases self.tokens.len() - pos, 14int,
    {
        match self.expression(pos) {
            Parsed::Good { value, pos: after } => {
                if self.at(after, TokenKind::Comma) && pos <= after {
                    match self.expression_list(after + 1) {
                        Parsed::Good { value: rest, pos: end } => Parsed::Good {
                            value: seq![value] + rest,
                            pos: end,
                        },
                        Parsed::Bad { error, pos: end } => Parsed::Bad { error, pos: end },
                    }
                } else {
                    Parsed::Good { value: seq![value], pos: after }
                }
            },
            Parsed::Bad { error, pos: end } => Parsed::Bad { error, pos: end },
        }
    }

    /// The arguments of a call, after its opening parenthesis: none before a
    /// closing parenthesis or the end, and never more than [`MAX_ARITY`].
    pub open spec fn arguments(self, pos: int) -> Parsed<Seq<ExprTree>>
        decreases self.tokens.len() - pos, 15int,
    {
        if self.at(pos, TokenKind::RightParen) || self.peek(pos) is None {
            Parsed::Good { value: Seq::empty(), pos }
        } else {
            match self.expression_list(pos) {
                Parsed::Good { value, pos: end } => {
                    if value.len() > MAX_ARITY {
                        Parsed::Bad {
                            error: local_error(
                                "Can't have more than 255 arguments."@,
                                self.here(end),
                            ),
                            pos: end,
                        }
                    } else {
                        Parsed::Good { value, pos: end }
                    }
                },
                Parsed::Bad { error, pos: end } => Parsed::Bad { error, pos: end },
            }
        }
    }

    /// The calls that follow `callee`, which ends before `pos`.
    pub open spec fn call_tail(self, callee: ExprTree, pos: int) -> Parsed<ExprTree>
        decreases self.tokens.len() - pos, 16int,
    {
        if self.at(pos, TokenKind::LeftParen) {
            match self.arguments(pos + 1) {
                Parsed::Good { value: args, pos: after } => match self.consume(
                    after,
                    TokenKind::RightParen,
                ) {
                    Parsed::Good { value: r_paren, pos: end } => {
                        if self.within(pos, end) {
                            self.call_tail(ExprTree::Call(Box::new(callee), r_paren, args), end)
                        } else {
                            self.stuck(pos)
                        }
                    },
                    Parsed::Bad { error, pos: end } => Parsed::Bad { error, pos: end },
                },
                Parsed::Bad { error, pos: end } => Parsed::Bad { error, pos: end },
            }
        } else {
            Parsed::Good { value: callee, pos }
        }
    }

    /// `call`.
    pub open spec fn call(self, pos: int) -> Parsed<ExprTree>
        decreases self.tokens.len() - pos, 1int,
    {
        match self.primary(pos) {
            Parsed::Good { value, pos: after } => {
                if self.within(pos, after) {
                    self.call_tail(value, after)
                } else {
                    self.stuck(pos)
                }
            },
            Parsed::Bad { error, pos: end } => Parsed::Bad { error, pos: end },
        }
    }

    /// `unary`.
    pub open spec fn unary(self, pos: int) -> Parsed<ExprTree>
        decreases self.tokens.len() - pos, 2int,
    {
        if self.at(pos, TokenKind::Bang) || self.at(pos, TokenKind::Minus) {
            match self.unary(pos + 1) {
                Parsed::Good { value, pos: end } => Parsed::Good {
                    value: ExprTree::Unary(self.tokens[pos], Box::new(value)),
                    pos: end,
                },
                Parsed::Bad { error, pos: end } => Parsed::Bad { error, pos: end },
            }
        } else {
            self.call(pos)
        }
    }

    /// The operators of `level` and their right operands that follow `left`,
    /// which ends before `pos`. Operators of one level group to the left.
    pub open spec fn binary_tail(self, level: int, left: ExprTree, pos: int) -> Parsed<ExprTree>
        decreases self.tokens.len() - pos, 16int,
    {
        if 0 <= level < LEVELS as int && 0 <= pos < self.tokens.len() && level_has(
            level,
            self.tokens[pos].kind,
        ) {
            let op = self.tokens[pos];
            match self.binary(level + 1, pos + 1) {
                Parsed::Good { value: right, pos: end } => {
                    let joined = if level < 2 {
                        ExprTree::Logical(op, Box::new(left), Box::new(right))
                    } else {
                        ExprTree::Binary(op, Box::new(left), Box::new(right))
                    };
                    if self.within(pos, end) {
                        self.binary_tail(level, joined, end)
                    } else {
                        self.stuck(pos)
                    }
                },
                Parsed::Bad { error, pos: end } => Parsed::Bad { error, pos: end },
            }
        } else {
            Parsed::Good { value: left, pos }
        }
    }

    /// An expression of binary level `level`: `logic_or` at level 0, then
    /// `logic_and`, `equality`, `comparison`, `term`, and `factor` at level 5.
    pub open spec fn binary(self, level: int, pos: int) -> Parsed<ExprTree>
        decreases
            self.tokens.len() - pos,
            (if 0 <= level < LEVELS as int {
                9 - level
            } else {
                3
            }),
    {
        if 0 <= level < LEVELS as int {
            match self.binary(level + 1, pos) {
                Parsed::Good { value, pos: after } => {
                    if self.within(pos, after) {
                        self.binary_tail(level, value, after)
                    } else {
                        self.stuck(pos)
                    }
                },
                Parsed::Bad { error, pos: end } => Parsed::Bad { error, pos: end },
            }
        } else {
            self.unary(pos)
        }
    }

    /// `assignment`. What stands left of `=` must be a variable.
    pub open spec fn assignment(self, pos: int) -> Parsed<ExprTree>
        decreases self.tokens.len() - pos, 12int,
    {
        match self.binary(0, pos) {
            Parsed::Good { value: target, pos: after } => {
                if self.at(after, TokenKind::Equal) && pos <= after {
                    match self.assignment(after + 1) {
                        Parsed::Good { value, pos: end } => match target {
                            ExprTree::Variable(name) => Parsed::Good {
                                value: ExprTree::Assign(name, Box::new(value)),
                                pos: end,
                            },
                            _ => Parsed::Bad {
                                error: local_error(
                                    "Invalid assignment target."@,
                                    self.tokens[after],
                                ),
                                pos: end,
                            },
                        },
                        Parsed::Bad { error, pos: end } => Parsed::Bad { error, pos: end },
                    }
                } else {
                    Parsed::Good { value: target, pos: after }
                }
            },
            Parsed::Bad { error, pos: end } => Parsed::Bad { error, pos: end },
        }
    }

    /// `expression`.
    pub open spec fn expression(self, pos: int) -> Parsed<ExprTree>
        decreases self.tokens.len() - pos, 13int,
    {
        self.assignment(pos)
    }

    /// An expression and the semicolon that ends it.
    pub open spec fn expression_stmt(self, pos: int) -> Parsed<StmtTree>
        decreases self.tokens.len() - pos, 20int,
    {
        match self.expression(pos) {
            Parsed::Good { value, pos: after } => match self.consume(after, TokenKind::Semicolon) {
                Parsed::Good { pos: end, .. } => Parsed::Good {
                    value: StmtTree::Expression(value),
                    pos: end,
                },
                Parsed::Bad { error, pos: end } => Parsed::Bad { error, pos: end },
            },
            Parsed::Bad { error, pos: end } => Parsed::Bad { error, pos: end },
        }
    }

    /// `printStmt`.
    pub open spec fn print_stmt(self, pos: int) -> Parsed<StmtTree>
        decreases self.tokens.len() - pos, 20int,
    {
        match self.consume(pos, TokenKind::Print) {
            Parsed::Good { value: print_token, pos: p1 } => match self.expression(p1) {
                Parsed::Good { value, pos: after } => match self.consume(
                    after,
                    TokenKind::Semicolon,
                ) {
                    Parsed::Good { pos: end, .. } => Parsed::Good {
                        value: StmtTree::Print(print_token, value),
                        pos: end,
                    },
                    Parsed::Bad { error, pos: end } => Parsed::Bad { error, pos: end },
                },
                Parsed::Bad { error, pos: end } => Parsed::Bad { error, pos: end },
            },
            Parsed::Bad { error, pos: end } => Parsed::Bad { error, pos: end },
        }
    }

    /// `returnStmt`.
    pub open spec fn return_stmt(self, pos: int) -> Parsed<StmtTree>
        decreases self.tokens.len() - pos, 20int,
    {
        match self.consume(pos, TokenKind::Return) {
            Parsed::Good { value: keyword, pos: p1 } => {
                if self.at(p1, TokenKind::Semicolon) {
                    Parsed::Good { value: StmtTree::Return(keyword, None), pos: p1 + 1 }
                } else {
                    match self.expression(p1) {
                        Parsed::Good { value, pos: after } => match self.consume(
                            after,
                            TokenKind::Semicolon,
                        ) {
                            Parsed::Good { pos: end, .. } => Parsed::Good {
                                value: StmtTree::Return(keyword, Some(value)),
                                pos: end,
                            },
                            Parsed::Bad { error, pos: end } => Parsed::Bad { error, pos: end },
                        },
                        Parsed::Bad { error, pos: end } => Parsed::Bad { error, pos: end },
                    }
                }
            },
            Parsed::Bad { error, pos: end } => Parsed::Bad { error, pos: end },
        }
    }

    /// `varDecl`.
    pub open spec fn var_decl(self, pos: int) -> Parsed<StmtTree>
        decreases self.tokens.len() - pos, 20int,
    {
        match self.consume(pos, TokenKind::Var) {
            Parsed::Good { pos: p1, .. } => match self.consume_name(p1, "identifier"@) {
                Parsed::Good { value: name, pos: p2 } => {
                    if self.at(p2, TokenKind::Equal) {
                        match self.expression(p2 + 1) {
                            Parsed::Good { value, pos: after } => match self.consume(
                                after,
                                TokenKind::Semicolon,
                            ) {
                                Parsed::Good { pos: end, .. } => Parsed::Good {
                                    value: StmtTree::Var(name, Some(value)),
                                    pos: end,
                                },
                                Parsed::Bad { error, pos: end } => Parsed::Bad { error, pos: end },
                            },
                            Parsed::Bad { error, pos: end } => Parsed::Bad { error, pos: end },
                        }
                    } else {
                        match self.consume(p2, TokenKind::Semicolon) {
                            Parsed::Good { pos: end, .. } => Parsed::Good {
                                value: StmtTree::Var(name, None),
                                pos: end,
                            },
                            Parsed::Bad { error, pos: end } => Parsed::Bad { error, pos: end },
                        }
                    }
                },
                Parsed::Bad { error, pos: end } => Parsed::Bad { error, pos: end },
            },
            Parsed::Bad { error, pos: end } => Parsed::Bad { error, pos: end },
        }
    }

    /// The declarations of a block up to, and not including, its closing brace.
    pub open spec fn block_items(self, pos: int) -> Parsed<Seq<StmtTree>>
        decreases self.tokens.len() - pos, 40int,
    {
        if 0 <= pos < self.tokens.len() && self.tokens[pos].kind != TokenKind::RightBrace {
            match self.declaration(pos) {
                Parsed::Good { value, pos: after } => {
                    if self.within(pos, after) {
                        match self.block_items(after) {
                            Parsed::Good { value: rest, pos: end } => Parsed::Good {
                                value: seq![value] + rest,
                                pos: end,
                            },
                            Parsed::Bad { error, pos: end } => Parsed::Bad { error, pos: end },
                        }
                    } else {
                        self.stuck(pos)
                    }
                },
                Parsed::Bad { error, pos: end } => Parsed::Bad { error, pos: end },
            }
        } else {
            Parsed::Good { value: Seq::empty(), pos }
        }
    }

    /// `block`: the declarations between a pair of braces.
    pub open spec fn block(self, pos: int) -> Parsed<Seq<StmtTree>>
        decreases self.tokens.len() - pos, 32int,
    {
        match self.consume(pos, TokenKind::LeftBrace) {
            Parsed::Good { pos: p1, .. } => match self.block_items(p1) {
                Parsed::Good { value, pos: after } => match self.consume(
                    after,
                    TokenKind::RightBrace,
                ) {
                    Parsed::Good { pos: end, .. } => Parsed::Good { value, pos: end },
                    Parsed::Bad { error, pos: end } => Parsed::Bad { error, pos: end },
                },
                Parsed::Bad { error, pos: end } => Parsed::Bad { error, pos: end },
            },
            Parsed::Bad { error, pos: end } => Parsed::Bad { error, pos: end },
        }
    }

    /// A condition between parentheses, after the keyword of kind `keyword`.
    pub open spec fn condition(self, pos: int, keyword: TokenKind) -> Parsed<ExprTree>
        decreases self.tokens.len() - pos, 15int,
    {
        match self.consume(pos, keyword) {
            Parsed::Good { pos: p1, .. } => match self.consume(p1, TokenKind::LeftParen) {
                Parsed::Good { pos: p2, .. } => match self.expression(p2) {
                    Parsed::Good { value, pos: p3 } => match self.consume(
                        p3,
                        TokenKind::RightParen,
                    ) {
                        Parsed::Good { pos: end, .. } => Parsed::Good { value, pos: end },
                        Parsed::Bad { error, pos: end } => Parsed::Bad { error, pos: end },
                    },
                    Parsed::Bad { error, pos: end } => Parsed::Bad { error, pos: end },
                },
                Parsed::Bad { error, pos: end } => Parsed::Bad { error, pos: end },
            },
            Parsed::Bad { error, pos: end } => Parsed::Bad { error, pos: end },
        }
    }

    /// The `else` branch of an `if`, if one follows.
    pub open spec fn else_branch(self, pos: int) -> Parsed<Option<StmtTree>>
        decreases self.tokens.len() - pos, 36int,
    {
        if self.at(pos, TokenKind::Else) {
            match self.statement(pos + 1) {
                Parsed::Good { value, pos: end } => Parsed::Good { value: Some(value), pos: end },
                Parsed::Bad { error, pos: end } => Parsed::Bad { error, pos: end },
            }
        } else {
            Parsed::Good { value: None, pos }
        }
    }

    /// `ifStmt`.
    pub open spec fn if_stmt(self, pos: int) -> Parsed<StmtTree>
        decreases self.tokens.len() - pos, 33int,
    {
        match self.condition(pos, TokenKind::If) {
            Parsed::Good { value: condition, pos: p1 } => {
                if self.within(pos, p1) {
                    match self.statement(p1) {
                        Parsed::Good { value: then_branch, pos: p2 } => {
                            if self.within(pos, p2) {
                                match self.else_branch(p2) {
                                    Parsed::Good { value: else_branch, pos: end } => Parsed::Good {
                                        value: StmtTree::If(
                                            condition,
                                            Box::new(then_branch),
                                            match else_branch {
                                                Some(e) => Some(Box::new(e)),
                                                None => None,
                                            },
                                        ),
                                        pos: end,
                                    },
                                    Parsed::Bad { error, pos: end } => Parsed::Bad { error, pos: end },
                                }
                            } else {
                                self.stuck(pos)
                            }
                        },
                        Parsed::Bad { error, pos: end } => Parsed::Bad { error, pos: end },
                    }
                } else {
                    self.stuck(pos)
                }
            },
            Parsed::Bad { error, pos: end } => Parsed::Bad { error, pos: end },
        }
    }

    /// `whileStmt`.
    pub open spec fn while_stmt(self, pos: int) -> Parsed<StmtTree>
        decreases self.tokens.len() - pos, 33int,
    {
        match self.condition(pos, TokenKind::While) {
            Parsed::Good { value: condition, pos: p1 } => {
                if self.within(pos, p1) {
                    match self.statement(p1) {
                        Parsed::Good { value: body, pos: end } => Parsed::Good {
                            value: StmtTree::While(condition, Box::new(body)),
                            pos: end,
                        },
                        Parsed::Bad { error, pos: end } => Parsed::Bad { error, pos: end },
                    }
                } else {
                    self.stuck(pos)
                }
            },
            Parsed::Bad { error, pos: end } => Parsed::Bad { error, pos: end },
        }
    }

    /// The first clause of a `for`: nothing but a semicolon, a variable
    /// declaration, or an expression statement.
    pub open spec fn for_initializer(self, pos: int) -> Parsed<Option<StmtTree>>
        decreases self.tokens.len() - pos, 21int,
    {
        if self.at(pos, TokenKind::Semicolon) {
            Parsed::Good { value: None, pos: pos + 1 }
        } else if self.at(pos, TokenKind::Var) {
            match self.var_decl(pos) {
                Parsed::Good { value, pos: end } => Parsed::Good { value: Some(value), pos: end },
                Parsed::Bad { error, pos: end } => Parsed::Bad { error, pos: end },
            }
        } else {
            match self.expression_stmt(pos) {
                Parsed::Good { value, pos: end } => Parsed::Good { value: Some(value), pos: end },
                Parsed::Bad { error, pos: end } => Parsed::Bad { error, pos: end },
            }
        }
    }

    /// An expression, unless the token of kind `stop` stands there.
    pub open spec fn optional_expression(self, pos: int, stop: TokenKind) -> Parsed<Option<ExprTree>>
        decreases self.tokens.len() - pos, 21int,
    {
        if self.at(pos, stop) {
            Parsed::Good { value: None, pos }
        } else {
            match self.expression(pos) {
                Parsed::Good { value, pos: end } => Parsed::Good { value: Some(value), pos: end },
                Parsed::Bad { error, pos: end } => Parsed::Bad { error, pos: end },
            }
        }
    }

    /// What follows the initializer of a `for`, which ends before `pos`: the
    /// condition, a semicolon, the increment and the closing parenthesis.
    pub open spec fn for_rest(self, initializer: Option<StmtTree>, pos: int) -> Parsed<
        (Option<StmtTree>, Option<ExprTree>, Option<ExprTree>),
    >
        decreases self.tokens.len() - pos, 23int,
    {
        match self.optional_expression(pos, TokenKind::Semicolon) {
            Parsed::Good { value: condition, pos: p1 } => match self.consume(
                p1,
                TokenKind::Semicolon,
            ) {
                Parsed::Good { pos: p2, .. } => {
                    if self.within(pos, p2) {
                        match self.optional_expression(p2, TokenKind::RightParen) {
                            Parsed::Good { value: increment, pos: p3 } => match self.consume(
                                p3,
                                TokenKind::RightParen,
                            ) {
                                Parsed::Good { pos: end, .. } => Parsed::Good {
                                    value: (initializer, condition, increment),
                                    pos: end,
                                },
                                Parsed::Bad { error, pos: end } => Parsed::Bad { error, pos: end },
                            },
                            Parsed::Bad { error, pos: end } => Parsed::Bad { error, pos: end },
                        }
                    } else {
                        self.stuck(pos)
                    }
                },
                Parsed::Bad { error, pos: end } => Parsed::Bad { error, pos: end },
            },
            Parsed::Bad { error, pos: end } => Parsed::Bad { error, pos: end },
        }
    }

    /// The three clauses of a `for` between their parentheses, after the keyword.
    pub open spec fn for_clauses(self, pos: int) -> Parsed<
        (Option<StmtTree>, Option<ExprTree>, Option<ExprTree>),
    >
        decreases self.tokens.len() - pos, 24int,
    {
        match self.consume(pos, TokenKind::For) {
            Parsed::Good { pos: p1, .. } => match self.consume(p1, TokenKind::LeftParen) {
                Parsed::Good { pos: p2, .. } => match self.for_initializer(p2) {
                    Parsed::Good { value: initializer, pos: p3 } => {
                        if self.within(pos, p3) {
                            self.for_rest(initializer, p3)
                        } else {
                            self.stuck(pos)
                        }
                    },
                    Parsed::Bad { error, pos: end } => Parsed::Bad { error, pos: end },
                },
                Parsed::Bad { error, pos: end } => Parsed::Bad { error, pos: end },
            },
            Parsed::Bad { error, pos: end } => Parsed::Bad { error, pos: end },
        }
    }

    /// The body of the loop that a `for` statement stands for: a block of
    /// the statement's body and, after it, the increment if there is one.
    pub open spec fn for_body(body: StmtTree, increment: Option<ExprTree>) -> StmtTree {
        StmtTree::Block(
            match increment {
                Some(inc) => seq![body, StmtTree::Expression(inc)],
                None => seq![body],
            },
        )
    }

    /// The condition of the loop that a `for` statement stands for: the
    /// condition that is written, or the literal `true`, carried by the
    /// closing token, if none is.
    pub open spec fn for_condition(self, condition: Option<ExprTree>) -> ExprTree {
        match condition {
            Some(c) => c,
            None => ExprTree::Literal(self.eof, LiteralView::Boolean(true)),
        }
    }

    /// The statement that a `for` statement stands for: a block that holds
    /// the initializer, if there is one, and then a loop; the loop runs
    /// while the condition holds, or for ever if there is none, and its body
    /// is a block of the statement's body and then the increment, if there
    /// is one. Both blocks are there whatever is left out.
    pub open spec fn desugared_for(
        self,
        initializer: Option<StmtTree>,
        condition: Option<ExprTree>,
        increment: Option<ExprTree>,
        body: StmtTree,
    ) -> StmtTree {
        let looping = StmtTree::While(
            self.for_condition(condition),
            Box::new(Input::for_body(body, increment)),
        );
        StmtTree::Block(
            match initializer {
                Some(init) => seq![init, looping],
                None => seq![looping],
            },
        )
    }

    /// `forStmt`.
    pub open spec fn for_stmt(self, pos: int) -> Parsed<StmtTree>
        decreases self.tokens.len() - pos, 33int,
    {
        match self.for_clauses(pos) {
            Parsed::Good { value: clauses, pos: p1 } => {
                if self.within(pos, p1) {
                    match self.statement(p1) {
                        Parsed::Good { value: body, pos: end } => Parsed::Good {
                            value: self.desugared_for(clauses.0, clauses.1, clauses.2, body),
                            pos: end,
                        },
                        Parsed::Bad { error, pos: end } => Parsed::Bad { error, pos: end },
                    }
                } else {
                    self.stuck(pos)
                }
            },
            Parsed::Bad { error, pos: end } => Parsed::Bad { error, pos: end },
        }
    }

    /// `statement`.
    pub open spec fn statement(self, pos: int) -> Parsed<StmtTree>
        decreases self.tokens.len() - pos, 34int,
    {
        if self.at(pos, TokenKind::If) {
            self.if_stmt(pos)
        } else if self.at(pos, TokenKind::Print) {
            self.print_stmt(pos)
        } else if self.at(pos, TokenKind::Return) {
            self.return_stmt(pos)
        } else if self.at(pos, TokenKind::While) {
            self.while_stmt(pos)
        } else if self.at(pos, TokenKind::For) {
            self.for_stmt(pos)
        } else if self.at(pos, TokenKind::LeftBrace) {
            match self.block(pos) {
                Parsed::Good { value, pos: end } => Parsed::Good {
                    value: StmtTree::Block(value),
                    pos: end,
                },
                Parsed::Bad { error, pos: end } => Parsed::Bad { error, pos: end },
            }
        } else {
            self.expression_stmt(pos)
        }
    }

    /// One or more names with commas between them.
    pub open spec fn name_list(self, pos: int) -> Parsed<Seq<TokenView>>
        decreases self.tokens.len() - pos,
    {
        match self.consume_name(pos, "parameter name"@) {
            Parsed::Good { value, pos: after } => {
                if self.at(after, TokenKind::Comma) && pos <= after {
                    match self.name_list(after + 1) {
                        Parsed::Good { value: rest, pos: end } => Parsed::Good {
                            value: seq![value] + rest,
                            pos: end,
                        },
                        Parsed::Bad { error, pos: end } => Parsed::Bad { error, pos: end },
                    }
                } else {
                    Parsed::Good { value: seq![value], pos: after }
                }
            },
            Parsed::Bad { error, pos: end } => Parsed::Bad { error, pos: end },
        }
    }

    /// The parameters of a function, after its opening parenthesis: none
    /// before a closing parenthesis or the end, and never more than
    /// [`MAX_ARITY`].
    pub open spec fn parameters(self, pos: int) -> Parsed<Seq<TokenView>> {
        if self.at(pos, TokenKind::RightParen) || self.peek(pos) is None {
            Parsed::Good { value: Seq::empty(), pos }
        } else {
            match self.name_list(pos) {
                Parsed::Good { value, pos: end } => {
                    if value.len() > MAX_ARITY {
                        Parsed::Bad {
                            error: local_error(
                                "Can't have more than 255 parameters."@,
                                self.here(end),
                            ),
                            pos: end,
                        }
                    } else {
                        Parsed::Good { value, pos: end }
                    }
                },
                Parsed::Bad { error, pos: end } => Parsed::Bad { error, pos: end },
            }
        }
    }

    /// `funDecl`.
    pub open spec fn function(self, pos: int) -> Parsed<StmtTree>
        decreases self.tokens.len() - pos, 33int,
    {
        match self.consume(pos, TokenKind::Fun) {
            Parsed::Good { pos: p1, .. } => match self.consume_name(p1, "function name"@) {
                Parsed::Good { value: name, pos: p2 } => match self.consume(
                    p2,
                    TokenKind::LeftParen,
                ) {
                    Parsed::Good { pos: p3, .. } => match self.parameters(p3) {
                        Parsed::Good { value: params, pos: p4 } => match self.consume(
                            p4,
                            TokenKind::RightParen,
                        ) {
                            Parsed::Good { pos: p5, .. } => {
                                if self.within(pos, p5) {
                                    match self.block(p5) {
                                        Parsed::Good { value: body, pos: end } => Parsed::Good {
                                            value: StmtTree::Function(name, params, body),
                                            pos: end,
                                        },
                                        Parsed::Bad { error, pos: end } => Parsed::Bad {
                                            error,
                                            pos: end,
                                        },
                                    }
                                } else {
                                    self.stuck(pos)
                                }
                            },
                            Parsed::Bad { error, pos: end } => Parsed::Bad { error, pos: end },
                        },
                        Parsed::Bad { error, pos: end } => Parsed::Bad { error, pos: end },
                    },
                    Parsed::Bad { error, pos: end } => Parsed::Bad { error, pos: end },
                },
                Parsed::Bad { error, pos: end } => Parsed::Bad { error, pos: end },
            },
            Parsed::Bad { error, pos: end } => Parsed::Bad { error, pos: end },
        }
    }

    /// `declaration`.
    pub open spec fn declaration(self, pos: int) -> Parsed<StmtTree>
        decreases self.tokens.len() - pos, 35int,
    {
        if self.at(pos, TokenKind::Fun) {
            self.function(pos)
        } else if self.at(pos, TokenKind::Var) {
            self.var_decl(pos)
        } else {
            self.statement(pos)
        }
    }

    /// Where the parser goes on after an error: after the next semicolon, or
    /// before the next token that begins a declaration, whichever comes
    /// first, at least one token further on; at the end if there is neither.
    pub open spec fn synchronize(self, pos: int) -> int
        decreases self.tokens.len() - pos,
    {
        if 0 <= pos < self.tokens.len() {
            if self.tokens[pos].kind == TokenKind::Semicolon {
                pos + 1
            } else if pos + 1 < self.tokens.len() && starts_declaration(self.tokens[pos + 1].kind) {
                pos + 1
            } else {
                self.synchronize(pos + 1)
            }
        } else {
            pos
        }
    }

    /// The declaration at `pos`, as a top-level item of the program.
    #[verifier::opaque]
    pub open spec fn item(self, pos: int) -> Parsed<StmtTree> {
        self.declaration(pos)
    }

    /// The declaration at `pos` and the position after it or, if it is
    /// wrong, the error and the position from which the parser goes on: where
    /// it stopped or, if the error asks for it, where [`Input::synchronize`]
    /// says.
    pub open spec fn recovered(self, pos: int) -> Parsed<StmtTree> {
        match self.item(pos) {
            Parsed::Good { value, pos: after } => Parsed::Good { value, pos: after },
            Parsed::Bad { error, pos: after } => Parsed::Bad {
                error,
                pos: if error.should_sync {
                    self.synchronize(after)
                } else {
                    after
                },
            },
        }
    }

    /// The statements and the errors of the program from `pos` on.
    pub open spec fn program_from(self, pos: int) -> Program
        decreases self.tokens.len() - pos,
    {
        if 0 <= pos < self.tokens.len() {
            match self.recovered(pos) {
                Parsed::Good { value, pos: next } => {
                    let rest = if self.within(pos, next) {
                        self.program_from(next)
                    } else {
                        Program::empty()
                    };
                    Program { statements: seq![value] + rest.statements, errors: rest.errors }
                },
                Parsed::Bad { error, pos: next } => {
                    let rest = if self.within(pos, next) {
                        self.program_from(next)
                    } else {
                        Program::empty()
                    };
                    Program { statements: rest.statements, errors: seq![error] + rest.errors }
                },
            }
        } else {
            Program::empty()
        }
    }

    /// The program: its statements if nothing was wrong, else every error.
    pub open spec fn program(self) -> Result<Seq<StmtTree>, Seq<ParseErrorView>> {
        let all = self.program_from(0);
        if all.errors.len() == 0 {
            Ok(all.statements)
        } else {
            Err(all.errors)
        }
    }
}

/// Whatever a `for` statement leaves out, it stands for a block that ends
/// with a loop whose body is a block: the outer block begins with the
/// initializer if there is one, and the inner one holds the statement's body
/// and then the increment if there is one.
pub proof fn lemma_for_shape(
    input: Input,
    initializer: Option<StmtTree>,
    condition: Option<ExprTree>,
    increment: Option<ExprTree>,
    body: StmtTree,
)
    ensures
        input.desugared_for(initializer, condition, increment, body) matches StmtTree::Block(outer)
            && outer.len() == (if initializer is Some { 2int } else { 1int })
            && (initializer matches Some(init) ==> outer[0] == init)
            && (outer.last() matches StmtTree::While(test, inner)
            && test == input.for_condition(condition)
            && (*inner matches StmtTree::Block(steps)
            && steps.len() == (if increment is Some { 2int } else { 1int })
            && steps[0] == body
            && (increment matches Some(inc) ==> steps[1] == StmtTree::Expression(inc)))),
{
}

} // verus!
