//! The parser: from tokens to a syntax tree in an arena.

use crate::ast::lemma_expr_tree_stable;
use crate::ast::lemma_extends_trans;
use crate::ast::lemma_stmt_tree_stable;
use crate::ast::AstArena;
use crate::ast::Expr;
use crate::ast::ExprAssign;
use crate::ast::ExprBinary;
use crate::ast::ExprCall;
use crate::ast::ExprGrouping;
use crate::ast::ExprId;
use crate::ast::ExprLiteral;
use crate::ast::ExprLogical;
use crate::ast::ExprTree;
use crate::ast::ExprUnary;
use crate::ast::ExprVariable;
use crate::ast::Literal;
use crate::ast::Stmt;
use crate::ast::StmtId;
use crate::ast::StmtTree;
use crate::error::ParsingError;
use crate::grammar::expected_error;
use crate::grammar::level_has;
use crate::grammar::literal_of;
use crate::grammar::Input;
use crate::grammar::Parsed;
use crate::grammar::LEVELS;
use crate::grammar::MAX_ARITY;
use crate::scanner::views;
use crate::tokens::Token;
use crate::tokens::TokenKind;
use crate::tokens::TokenType;
use crate::tokens::TokenView;
use vstd::prelude::*;

pub mod for_loop;
pub mod program;
pub mod statements;

verus! {

/// A cursor over the tokens of a program.
pub struct Parser {
    tokens: Vec<Token>,
    pos: usize,
    eof: Token,
}

/// `p` with `prefix` put before the sequence that it found.
pub open spec fn with_prefix<T>(prefix: Seq<T>, p: Parsed<Seq<T>>) -> Parsed<Seq<T>> {
    match p {
        Parsed::Good { value, pos } => Parsed::Good { value: prefix + value, pos },
        Parsed::Bad { error, pos } => Parsed::Bad { error, pos },
    }
}

/// The parser has read on in the same input, and the arena has grown.
pub open spec fn moved(
    before: &Parser,
    after: &Parser,
    arena_before: &AstArena,
    arena_after: &AstArena,
) -> bool {
    &&& after.wf()
    &&& after.input() == before.input()
    &&& before.position() <= after.position() <= after.input().tokens.len()
    &&& arena_after.wf()
    &&& arena_after.extends(arena_before)
}

/// Unless the arena is full, `r` is what the grammar expects from `start`:
/// an expression that reads as the expected tree, or the expected error, and
/// the parser stands where the grammar says.
pub open spec fn yields_expr(
    start: int,
    after: &Parser,
    arena: &AstArena,
    r: Result<Expr, ParsingError>,
    expected: Parsed<ExprTree>,
) -> bool {
    &&& r matches Ok(e) ==> arena.expr_closed(e, arena.count())
    &&& arena.has_room() ==> match expected {
        Parsed::Good { value, pos } => start < pos && after.position() == pos && (r matches Ok(e)
            && arena.node_tree(e, arena.count()) == value),
        Parsed::Bad { error, pos } => after.position() == pos && (r matches Err(err) && err@
            == error),
    }
}

/// As [`yields_expr`], for a statement.
pub open spec fn yields_stmt(
    start: int,
    after: &Parser,
    arena: &AstArena,
    r: Result<Stmt, ParsingError>,
    expected: Parsed<StmtTree>,
) -> bool {
    &&& r matches Ok(s) ==> arena.stmt_closed(s, arena.count())
    &&& arena.has_room() ==> match expected {
        Parsed::Good { value, pos } => start < pos && after.position() == pos && (r matches Ok(s)
            && arena.stmt_node_tree(s, arena.count()) == value),
        Parsed::Bad { error, pos } => after.position() == pos && (r matches Err(err) && err@
            == error),
    }
}

/// Every id in `ids` names an expression of `arena`.
pub open spec fn all_exprs(arena: &AstArena, ids: Seq<ExprId>) -> bool {
    forall|i: int|
        0 <= i < ids.len() ==> arena.has_expr(#[trigger] ids[i]) && arena.rank(ids[i].raw)
            < arena.count()
}

/// Every id in `ids` names a statement of `arena`.
pub open spec fn all_stmts(arena: &AstArena, ids: Seq<StmtId>) -> bool {
    forall|i: int|
        0 <= i < ids.len() ==> arena.has_stmt(#[trigger] ids[i]) && arena.rank(ids[i].raw)
            < arena.count()
}

/// As [`yields_expr`], for a list of expressions that are already stored.
pub open spec fn yields_exprs(
    after: &Parser,
    arena: &AstArena,
    r: Result<Vec<ExprId>, ParsingError>,
    expected: Parsed<Seq<ExprTree>>,
) -> bool {
    &&& r matches Ok(ids) ==> all_exprs(arena, ids@)
    &&& arena.has_room() ==> match expected {
        Parsed::Good { value, pos } => after.position() == pos && (r matches Ok(ids)
            && arena.expr_trees(ids@) == value),
        Parsed::Bad { error, pos } => after.position() == pos && (r matches Err(err) && err@
            == error),
    }
}

/// As [`yields_stmt`], for a list of statements that are already stored.
pub open spec fn yields_stmts(
    after: &Parser,
    arena: &AstArena,
    r: Result<Vec<StmtId>, ParsingError>,
    expected: Parsed<Seq<StmtTree>>,
) -> bool {
    &&& r matches Ok(ids) ==> all_stmts(arena, ids@)
    &&& arena.has_room() ==> match expected {
        Parsed::Good { value, pos } => after.position() == pos && (r matches Ok(ids)
            && arena.stmt_trees(ids@) == value),
        Parsed::Bad { error, pos } => after.position() == pos && (r matches Err(err) && err@
            == error),
    }
}

/// As [`yields_expr`], for an expression that is already stored.
pub open spec fn yields_expr_id(
    start: int,
    after: &Parser,
    arena: &AstArena,
    r: Result<ExprId, ParsingError>,
    expected: Parsed<ExprTree>,
) -> bool {
    &&& r matches Ok(id) ==> arena.has_expr(id) && arena.rank(id.raw) < arena.count()
    &&& arena.has_room() ==> match expected {
        Parsed::Good { value, pos } => start < pos && after.position() == pos && (r matches Ok(id)
            && arena.expr_tree(id) == value),
        Parsed::Bad { error, pos } => after.position() == pos && (r matches Err(err) && err@
            == error),
    }
}

/// As [`yields_stmt`], for a statement that is already stored.
pub open spec fn yields_stmt_id(
    start: int,
    after: &Parser,
    arena: &AstArena,
    r: Result<StmtId, ParsingError>,
    expected: Parsed<StmtTree>,
) -> bool {
    &&& r matches Ok(id) ==> arena.has_stmt(id) && arena.rank(id.raw) < arena.count()
    &&& arena.has_room() ==> match expected {
        Parsed::Good { value, pos } => start < pos && after.position() == pos && (r matches Ok(id)
            && arena.stmt_tree(id) == value),
        Parsed::Bad { error, pos } => after.position() == pos && (r matches Err(err) && err@
            == error),
    }
}

/// As [`yields_expr`], for a token.
pub open spec fn yields_token(
    after: &Parser,
    r: Result<Token, ParsingError>,
    expected: Parsed<TokenView>,
) -> bool {
    match expected {
        Parsed::Good { value, pos } => after.position() == pos && (r matches Ok(t) && t@ == value),
        Parsed::Bad { error, pos } => after.position() == pos && (r matches Err(err) && err@
            == error),
    }
}

/// Ids that name expressions of an arena still do so, and read as the same
/// trees, in an arena that the first has grown into.
pub proof fn lemma_exprs_stable(before: &AstArena, after: &AstArena, ids: Seq<ExprId>)
    requires
        before.wf(),
        after.extends(before),
        all_exprs(before, ids),
    ensures
        all_exprs(after, ids),
        after.expr_trees(ids) == before.expr_trees(ids),
{
    assert forall|i: int| 0 <= i < ids.len() implies after.has_expr(#[trigger] ids[i])
        && after.rank(ids[i].raw) < after.count() && after.expr_tree(ids[i]) == before.expr_tree(
        ids[i],
    ) by {
        lemma_expr_tree_stable(before, after, ids[i]);
    }
    assert(after.expr_trees(ids) =~= before.expr_trees(ids));
}

/// Ids that name statements of an arena still do so, and read as the same
/// trees, in an arena that the first has grown into.
pub proof fn lemma_stmts_stable(before: &AstArena, after: &AstArena, ids: Seq<StmtId>)
    requires
        before.wf(),
        after.extends(before),
        all_stmts(before, ids),
    ensures
        all_stmts(after, ids),
        after.stmt_trees(ids) == before.stmt_trees(ids),
{
    reveal(AstArena::stmt_trees);
    assert forall|i: int| 0 <= i < ids.len() implies after.has_stmt(#[trigger] ids[i])
        && after.rank(ids[i].raw) < after.count() && after.stmt_tree(ids[i]) == before.stmt_tree(
        ids[i],
    ) by {
        lemma_stmt_tree_stable(before, after, ids[i]);
    }
    assert(after.stmt_trees(ids) =~= before.stmt_trees(ids));
}

/// The clauses of a `for` name nodes of `arena`.
pub open spec fn clauses_stored(
    arena: &AstArena,
    clauses: (Option<StmtId>, Option<ExprId>, Option<ExprId>),
) -> bool {
    &&& clauses.0 matches Some(id) ==> arena.has_stmt(id)
    &&& clauses.1 matches Some(id) ==> arena.has_expr(id)
    &&& clauses.2 matches Some(id) ==> arena.has_expr(id)
}

/// The clauses of a `for` read the same in an arena that has grown.
pub proof fn lemma_clauses_stable(
    before: &AstArena,
    after: &AstArena,
    clauses: (Option<StmtId>, Option<ExprId>, Option<ExprId>),
)
    requires
        before.wf(),
        after.extends(before),
        clauses_stored(before, clauses),
    ensures
        clauses_stored(after, clauses),
        after.opt_stmt_tree(clauses.0) == before.opt_stmt_tree(clauses.0),
        after.opt_expr_tree(clauses.1) == before.opt_expr_tree(clauses.1),
        after.opt_expr_tree(clauses.2) == before.opt_expr_tree(clauses.2),
{
    if let Some(id) = clauses.0 {
        lemma_stmt_tree_stable(before, after, id);
    }
    if let Some(id) = clauses.1 {
        lemma_expr_tree_stable(before, after, id);
    }
    if let Some(id) = clauses.2 {
        lemma_expr_tree_stable(before, after, id);
    }
}

fn level_takes(level: u8, kind: TokenKind) -> (b: bool)
    ensures
        b == level_has(level as int, kind),
{
    if level == 0 {
        kind == TokenKind::Or
    } else if level == 1 {
        kind == TokenKind::And
    } else if level == 2 {
        kind == TokenKind::BangEqual || kind == TokenKind::EqualEqual
    } else if level == 3 {
        kind == TokenKind::Greater || kind == TokenKind::GreaterEqual || kind == TokenKind::Less
            || kind == TokenKind::LessEqual
    } else if level == 4 {
        kind == TokenKind::Minus || kind == TokenKind::Plus
    } else if level == 5 {
        kind == TokenKind::Slash || kind == TokenKind::Star
    } else {
        false
    }
}

/// The literal that `token` stands for, if it is one.
fn literal(token: &Token) -> (l: Option<Literal>)
    ensures
        match (l, literal_of(token@)) {
            (Some(found), Some(expected)) => found@ == expected,
            (None, None) => true,
            _ => false,
        },
{
    match &token.ty {
        TokenType::Number(digits) => Some(Literal::Number(digits.clone())),
        TokenType::String(contents) => Some(Literal::String(contents.clone())),
        TokenType::True => Some(Literal::Boolean(true)),
        TokenType::False => Some(Literal::Boolean(false)),
        TokenType::Nil => Some(Literal::Nil),
        _ => None,
    }
}

impl Parser {
    /// The tokens before the closing token, and the closing token.
    pub closed spec fn input(&self) -> Input {
        Input { tokens: views(self.tokens@), eof: self.eof@ }
    }

    /// The index of the next token to read.
    pub closed spec fn position(&self) -> int {
        self.pos as int
    }

    /// The cursor is inside the tokens.
    pub closed spec fn wf(&self) -> bool {
        self.pos <= self.tokens.len()
    }

    /// A parser at the start of `tokens`, the last of which is the closing
    /// token that reports the end of the source.
    pub fn new(tokens: Vec<Token>) -> (p: Self)
        requires
            tokens@.len() > 0,
        ensures
            p.wf(),
            p.position() == 0,
            p.input() == (Input { tokens: views(tokens@.drop_last()), eof: tokens@.last()@ }),
    {
        let mut tokens = tokens;
        let ghost all = tokens@;
        let eof = tokens.pop().unwrap();
        assert(tokens@ =~= all.drop_last());
        Parser { tokens, pos: 0, eof }
    }

    /// The cursor of a sound parser is inside its tokens.
    pub proof fn lemma_in_bounds(&self)
        requires
            self.wf(),
        ensures
            0 <= self.position() <= self.input().tokens.len(),
    {
    }

    /// The closing token.
    pub(crate) fn eof_token(&self) -> (t: Token)
        ensures
            t@ == self.input().eof,
    {
        self.eof.clone()
    }

    /// How many tokens are left to read.
    pub(crate) fn remaining(&self) -> (n: usize)
        requires
            self.wf(),
        ensures
            n == self.input().tokens.len() - self.position(),
    {
        self.tokens.len() - self.pos
    }

    pub(crate) fn peek_kind(&self) -> (k: Option<TokenKind>)
        requires
            self.wf(),
        ensures
            k == self.input().peek(self.position()),
    {
        if self.pos < self.tokens.len() {
            Some(self.tokens[self.pos].ty.kind())
        } else {
            None
        }
    }

    /// The token at the cursor, or the closing token at the end.
    pub(crate) fn here(&self) -> (t: Token)
        requires
            self.wf(),
        ensures
            t@ == self.input().here(self.position()),
    {
        if self.pos < self.tokens.len() {
            self.tokens[self.pos].clone()
        } else {
            self.eof.clone()
        }
    }

    pub(crate) fn advance(&mut self) -> (t: Option<Token>)
        requires
            old(self).wf(),
        ensures
            final(self).wf(),
            final(self).input() == old(self).input(),
            old(self).position() < old(self).input().tokens.len() ==> final(self).position()
                == old(self).position() + 1 && (t matches Some(tok) && tok@
                == old(self).input().tokens[old(self).position()]),
            old(self).position() >= old(self).input().tokens.len() ==> final(self).position()
                == old(self).position() && t is None,
    {
        if self.pos < self.tokens.len() {
            let t = self.tokens[self.pos].clone();
            self.pos = self.pos + 1;
            Some(t)
        } else {
            None
        }
    }

    pub(crate) fn matches(&mut self, kind: TokenKind) -> (t: Option<Token>)
        requires
            old(self).wf(),
        ensures
            final(self).wf(),
            final(self).input() == old(self).input(),
            old(self).input().at(old(self).position(), kind) ==> final(self).position()
                == old(self).position() + 1 && (t matches Some(tok) && tok@
                == old(self).input().tokens[old(self).position()]),
            !old(self).input().at(old(self).position(), kind) ==> final(self).position()
                == old(self).position() && t is None,
    {
        match self.peek_kind() {
            Some(k) => {
                if k == kind {
                    self.advance()
                } else {
                    None
                }
            },
            None => None,
        }
    }

    pub(crate) fn matches_level(&mut self, level: u8) -> (t: Option<Token>)
        requires
            old(self).wf(),
        ensures
            final(self).wf(),
            final(self).input() == old(self).input(),
            ({
                let input = old(self).input();
                let pos = old(self).position();
                if pos < input.tokens.len() && level_has(level as int, input.tokens[pos].kind) {
                    final(self).position() == pos + 1 && (t matches Some(tok) && tok@
                        == input.tokens[pos])
                } else {
                    final(self).position() == pos && t is None
                }
            }),
    {
        match self.peek_kind() {
            Some(k) => {
                if level_takes(level, k) {
                    self.advance()
                } else {
                    None
                }
            },
            None => None,
        }
    }

    /// The error that names what was expected where `found` stands.
    pub(crate) fn expected(what: &str, found: &Token) -> (e: ParsingError)
        ensures
            e@ == expected_error(what@, found@),
    {
        let text = found.as_str();
        ParsingError::expected(found.span, what, text.as_str())
    }

    pub(crate) fn consume(&mut self, kind: TokenKind) -> (r: Result<Token, ParsingError>)
        requires
            old(self).wf(),
            kind != TokenKind::Identifier,
            kind != TokenKind::String,
            kind != TokenKind::Number,
        ensures
            final(self).wf(),
            final(self).input() == old(self).input(),
            old(self).position() <= final(self).position() <= final(self).input().tokens.len(),
            yields_token(final(self), r, old(self).input().consume(old(self).position(), kind)),
    {
        let what = TokenType::plain(kind).as_str();
        match self.advance() {
            Some(tok) => {
                if tok.ty.kind() == kind {
                    Ok(tok)
                } else {
                    Err(Self::expected(what.as_str(), &tok))
                }
            },
            None => Err(Self::expected(what.as_str(), &self.eof)),
        }
    }

    /// Takes a name; `what` says what the name is for.
    pub(crate) fn consume_with(&mut self, what: &str) -> (r: Result<Token, ParsingError>)
        requires
            old(self).wf(),
        ensures
            final(self).wf(),
            final(self).input() == old(self).input(),
            old(self).position() <= final(self).position() <= final(self).input().tokens.len(),
            yields_token(final(self), r, old(self).input().consume_name(old(self).position(), what@)),
    {
        match self.advance() {
            Some(tok) => {
                if tok.ty.kind() == TokenKind::Identifier {
                    Ok(tok)
                } else {
                    Err(Self::expected(what, &tok))
                }
            },
            None => Err(Self::expected(what, &self.eof)),
        }
    }

    /// Stores `expr`; an arena without room is an error of the parse.
    pub(crate) fn alloc_expr(&self, arena: &mut AstArena, expr: Expr) -> (r: Result<ExprId, ParsingError>)
        requires
            old(arena).wf(),
            old(arena).expr_closed(expr, old(arena).count()),
        ensures
            final(arena).wf(),
            final(arena).extends(old(arena)),
            r is Err ==> !final(arena).has_room(),
            r is Ok ==> old(arena).has_room(),
            r matches Ok(id) ==> final(arena).has_expr(id)
                && final(arena).rank(id.raw) < final(arena).count() && final(arena).expr_tree(id)
                == old(arena).node_tree(
                expr,
                old(arena).count(),
            ),
    {
        match arena.alloc_expr(expr) {
            Some(id) => Ok(id),
            None => Err(ParsingError::custom_no_sync(self.eof.span, "Too many syntax tree nodes.")),
        }
    }

    /// Stores `stmt`; an arena without room is an error of the parse.
    pub(crate) fn alloc_stmt(&self, arena: &mut AstArena, stmt: Stmt) -> (r: Result<StmtId, ParsingError>)
        requires
            old(arena).wf(),
            old(arena).stmt_closed(stmt, old(arena).count()),
        ensures
            final(arena).wf(),
            final(arena).extends(old(arena)),
            r is Err ==> !final(arena).has_room(),
            r is Ok ==> old(arena).has_room(),
            r matches Ok(id) ==> final(arena).has_stmt(id)
                && final(arena).rank(id.raw) < final(arena).count() && final(arena).stmt_tree(id)
                == old(arena).stmt_node_tree(
                stmt,
                old(arena).count(),
            ),
    {
        match arena.alloc_stmt(stmt) {
            Some(id) => Ok(id),
            None => Err(ParsingError::custom_no_sync(self.eof.span, "Too many syntax tree nodes.")),
        }
    }

    fn primary(&mut self, arena: &mut AstArena) -> (r: Result<Expr, ParsingError>)
        requires
            old(self).wf(),
            old(arena).wf(),
        ensures
            moved(old(self), final(self), old(arena), final(arena)),
            yields_expr(
                old(self).position(),
                final(self),
                final(arena),
                r,
                old(self).input().primary(old(self).position()),
            ),
        decreases old(self).tokens.len() - old(self).pos, 0int,
    {
        match self.advance() {
            Some(token) => {
                match literal(&token) {
                    Some(value) => {
                        return Ok(Expr::Literal(ExprLiteral { token, literal: value }));
                    },
                    None => {},
                }
                match token.ty.kind() {
                    TokenKind::LeftParen => {
                        let inner = self.expression(arena)?;
                        let id = self.alloc_expr(arena, inner)?;
                        self.consume(TokenKind::RightParen)?;
                        Ok(Expr::Grouping(ExprGrouping(id)))
                    },
                    TokenKind::Identifier => Ok(Expr::Variable(ExprVariable { name: token })),
                    _ => Err(Self::expected("expression", &token)),
                }
            },
            None => Err(Self::expected("expression", &self.eof)),
        }
    }

    /// One or more expressions with commas between them, each stored.
    fn expression_list(&mut self, arena: &mut AstArena) -> (r: Result<Vec<ExprId>, ParsingError>)
        requires
            old(self).wf(),
            old(arena).wf(),
        ensures
            moved(old(self), final(self), old(arena), final(arena)),
            yields_exprs(
                final(self),
                final(arena),
                r,
                old(self).input().expression_list(old(self).position()),
            ),
        decreases old(self).tokens.len() - old(self).pos, 14int,
    {
        let mut args: Vec<ExprId> = Vec::new();
        let ghost input = self.input();
        let ghost goal = input.expression_list(self.position());
        loop
            invariant
                moved(old(self), self, old(arena), arena),
                input == self.input(),
                goal == old(self).input().expression_list(old(self).position()),
                all_exprs(arena, args@),
                arena.has_room() ==> goal == with_prefix(
                    arena.expr_trees(args@),
                    input.expression_list(self.position()),
                ),
            decreases self.tokens.len() - self.pos,
        {
            let ghost a0 = *arena;
            let ghost p0 = self.position();
            let ghost trees = arena.expr_trees(args@);
            let node = match self.expression(arena) {
                Ok(node) => node,
                Err(e) => {
                    return Err(e);
                },
            };
            let ghost a1 = *arena;
            let id = match self.alloc_expr(arena, node) {
                Ok(id) => id,
                Err(e) => {
                    return Err(e);
                },
            };
            proof {
                lemma_extends_trans(old(arena), &a1, arena);
                lemma_extends_trans(&a0, &a1, arena);
                lemma_exprs_stable(&a0, arena, args@);
            }
            args.push(id);
            proof {
                if arena.has_room() {
                    assert(arena.expr_trees(args@) =~= trees + seq![arena.expr_tree(id)]);
                }
            }
            let ghost p1 = self.position();
            match self.matches(TokenKind::Comma) {
                Some(_) => {
                    proof {
                        if arena.has_room() {
                            let rest = input.expression_list(p1 + 1);
                            assert(with_prefix(trees, input.expression_list(p0)) == with_prefix(
                                arena.expr_trees(args@),
                                rest,
                            )) by {
                                match rest {
                                    Parsed::Good { value, pos } => {
                                        assert(trees + (seq![arena.expr_tree(id)] + value)
                                            =~= (trees
                                            + seq![arena.expr_tree(id)]) + value);
                                    },
                                    Parsed::Bad { .. } => {},
                                }
                            }
                        }
                    }
                },
                None => {
                    return Ok(args);
                },
            }
        }
    }

    fn arguments(&mut self, arena: &mut AstArena) -> (r: Result<Vec<ExprId>, ParsingError>)
        requires
            old(self).wf(),
            old(arena).wf(),
        ensures
            moved(old(self), final(self), old(arena), final(arena)),
            yields_exprs(
                final(self),
                final(arena),
                r,
                old(self).input().arguments(old(self).position()),
            ),
            r matches Ok(ids) ==> ids@.len() <= MAX_ARITY,
        decreases old(self).tokens.len() - old(self).pos, 15int,
    {
        match self.peek_kind() {
            Some(TokenKind::RightParen) | None => {
                let args: Vec<ExprId> = Vec::new();
                assert(arena.expr_trees(args@) =~= Seq::<ExprTree>::empty());
                return Ok(args);
            },
            _ => {},
        }
        let args = self.expression_list(arena)?;
        if args.len() > MAX_ARITY {
            let at = self.here();
            return Err(ParsingError::custom_no_sync(at.span, "Can't have more than 255 arguments."));
        }
        Ok(args)
    }

    fn call(&mut self, arena: &mut AstArena) -> (r: Result<Expr, ParsingError>)
        requires
            old(self).wf(),
            old(arena).wf(),
        ensures
            moved(old(self), final(self), old(arena), final(arena)),
            yields_expr(
                old(self).position(),
                final(self),
                final(arena),
                r,
                old(self).input().call(old(self).position()),
            ),
        decreases old(self).tokens.len() - old(self).pos, 1int,
    {
        let ghost input = self.input();
        let ghost start = self.position();
        let ghost goal = input.call(start);
        let mut expr = self.primary(arena)?;
        loop
            invariant
                moved(old(self), self, old(arena), arena),
                input == self.input(),
                start == old(self).position(),
                goal == input.call(start),
                arena.expr_closed(expr, arena.count()),
                arena.has_room() ==> start < self.position() && goal == input.call_tail(
                    arena.node_tree(expr, arena.count()),
                    self.position(),
                ),
            decreases self.tokens.len() - self.pos,
        {
            let ghost p0 = self.position();
            let ghost a0 = *arena;
            let ghost callee_tree = arena.node_tree(expr, arena.count());
            match self.matches(TokenKind::LeftParen) {
                Some(_) => {},
                None => {
                    return Ok(expr);
                },
            }
            let callee = self.alloc_expr(arena, expr)?;
            let ghost a1 = *arena;
            let args = self.arguments(arena)?;
            let ghost a2 = *arena;
            let r_paren = self.consume(TokenKind::RightParen)?;
            proof {
                lemma_extends_trans(old(arena), &a0, &a1);
                lemma_extends_trans(old(arena), &a1, &a2);
                lemma_expr_tree_stable(&a1, arena, callee);
            }
            expr = Expr::Call(ExprCall { callee, r_paren, args });
            proof {
                assert(arena.expr_closed(expr, arena.count())) by {
                    assert forall|i: int| 0 <= i < expr.children().len() implies arena.has_expr(
                        #[trigger] expr.children()[i],
                    ) && arena.rank(expr.children()[i].raw) < arena.count() by {
                        if i > 0 {
                            assert(expr.children()[i] == args@[i - 1]);
                        }
                    }
                }
                assert(arena.node_tree(expr, arena.count())->Call_2 =~= arena.expr_trees(args@));
            }
        }
    }

    fn unary(&mut self, arena: &mut AstArena) -> (r: Result<Expr, ParsingError>)
        requires
            old(self).wf(),
            old(arena).wf(),
        ensures
            moved(old(self), final(self), old(arena), final(arena)),
            yields_expr(
                old(self).position(),
                final(self),
                final(arena),
                r,
                old(self).input().unary(old(self).position()),
            ),
        decreases old(self).tokens.len() - old(self).pos, 2int,
    {
        let op = match self.matches(TokenKind::Bang) {
            Some(op) => Some(op),
            None => self.matches(TokenKind::Minus),
        };
        match op {
            Some(op) => {
                let operand = self.unary(arena)?;
                let right = self.alloc_expr(arena, operand)?;
                Ok(Expr::Unary(ExprUnary { op, right }))
            },
            None => self.call(arena),
        }
    }

    /// An expression of binary level `level`; at the level after the last, a
    /// unary expression.
    fn binary(&mut self, arena: &mut AstArena, level: u8) -> (r: Result<Expr, ParsingError>)
        requires
            old(self).wf(),
            old(arena).wf(),
        ensures
            moved(old(self), final(self), old(arena), final(arena)),
            yields_expr(
                old(self).position(),
                final(self),
                final(arena),
                r,
                old(self).input().binary(level as int, old(self).position()),
            ),
        decreases
            old(self).tokens.len() - old(self).pos,
            (if level < LEVELS {
                9 - level
            } else {
                3
            }),
    {
        if level >= LEVELS {
            return self.unary(arena);
        }
        let ghost input = self.input();
        let ghost start = self.position();
        let ghost goal = input.binary(level as int, start);
        let mut expr = self.binary(arena, level + 1)?;
        loop
            invariant
                moved(old(self), self, old(arena), arena),
                input == self.input(),
                start == old(self).position(),
                level < LEVELS,
                goal == input.binary(level as int, start),
                arena.expr_closed(expr, arena.count()),
                arena.has_room() ==> start < self.position() && goal == input.binary_tail(
                    level as int,
                    arena.node_tree(expr, arena.count()),
                    self.position(),
                ),
            decreases self.tokens.len() - self.pos,
        {
            let ghost a0 = *arena;
            let op = match self.matches_level(level) {
                Some(op) => op,
                None => {
                    return Ok(expr);
                },
            };
            let left = self.alloc_expr(arena, expr)?;
            let ghost a1 = *arena;
            let operand = self.binary(arena, level + 1)?;
            let ghost a2 = *arena;
            let right = self.alloc_expr(arena, operand)?;
            proof {
                lemma_extends_trans(old(arena), &a0, &a1);
                lemma_extends_trans(old(arena), &a1, &a2);
                lemma_extends_trans(old(arena), &a2, arena);
                lemma_extends_trans(&a1, &a2, arena);
                lemma_expr_tree_stable(&a1, arena, left);
            }
            expr = if level < 2 {
                Expr::Logical(ExprLogical { op, left, right })
            } else {
                Expr::Binary(ExprBinary { op, left, right })
            };
        }
    }

    fn factor(&mut self, arena: &mut AstArena) -> (r: Result<Expr, ParsingError>)
        requires
            old(self).wf(),
            old(arena).wf(),
        ensures
            moved(old(self), final(self), old(arena), final(arena)),
            yields_expr(
                old(self).position(),
                final(self),
                final(arena),
                r,
                old(self).input().binary(5, old(self).position()),
            ),
        decreases old(self).tokens.len() - old(self).pos, 5int,
    {
        self.binary(arena, 5)
    }

    fn term(&mut self, arena: &mut AstArena) -> (r: Result<Expr, ParsingError>)
        requires
            old(self).wf(),
            old(arena).wf(),
        ensures
            moved(old(self), final(self), old(arena), final(arena)),
            yields_expr(
                old(self).position(),
                final(self),
                final(arena),
                r,
                old(self).input().binary(4, old(self).position()),
            ),
        decreases old(self).tokens.len() - old(self).pos, 6int,
    {
        self.binary(arena, 4)
    }

    fn comparison(&mut self, arena: &mut AstArena) -> (r: Result<Expr, ParsingError>)
        requires
            old(self).wf(),
            old(arena).wf(),
        ensures
            moved(old(self), final(self), old(arena), final(arena)),
            yields_expr(
                old(self).position(),
                final(self),
                final(arena),
                r,
                old(self).input().binary(3, old(self).position()),
            ),
        decreases old(self).tokens.len() - old(self).pos, 7int,
    {
        self.binary(arena, 3)
    }

    fn equality(&mut self, arena: &mut AstArena) -> (r: Result<Expr, ParsingError>)
        requires
            old(self).wf(),
            old(arena).wf(),
        ensures
            moved(old(self), final(self), old(arena), final(arena)),
            yields_expr(
                old(self).position(),
                final(self),
                final(arena),
                r,
                old(self).input().binary(2, old(self).position()),
            ),
        decreases old(self).tokens.len() - old(self).pos, 8int,
    {
        self.binary(arena, 2)
    }

    fn logic_and(&mut self, arena: &mut AstArena) -> (r: Result<Expr, ParsingError>)
        requires
            old(self).wf(),
            old(arena).wf(),
        ensures
            moved(old(self), final(self), old(arena), final(arena)),
            yields_expr(
                old(self).position(),
                final(self),
                final(arena),
                r,
                old(self).input().binary(1, old(self).position()),
            ),
        decreases old(self).tokens.len() - old(self).pos, 9int,
    {
        self.binary(arena, 1)
    }

    fn logic_or(&mut self, arena: &mut AstArena) -> (r: Result<Expr, ParsingError>)
        requires
            old(self).wf(),
            old(arena).wf(),
        ensures
            moved(old(self), final(self), old(arena), final(arena)),
            yields_expr(
                old(self).position(),
                final(self),
                final(arena),
                r,
                old(self).input().binary(0, old(self).position()),
            ),
        decreases old(self).tokens.len() - old(self).pos, 10int,
    {
        self.binary(arena, 0)
    }

    fn assignment(&mut self, arena: &mut AstArena) -> (r: Result<Expr, ParsingError>)
        requires
            old(self).wf(),
            old(arena).wf(),
        ensures
            moved(old(self), final(self), old(arena), final(arena)),
            yields_expr(
                old(self).position(),
                final(self),
                final(arena),
                r,
                old(self).input().assignment(old(self).position()),
            ),
        decreases old(self).tokens.len() - old(self).pos, 12int,
    {
        let target = self.logic_or(arena)?;
        match self.matches(TokenKind::Equal) {
            Some(equals) => {
                let node = self.assignment(arena)?;
                let value = self.alloc_expr(arena, node)?;
                match target {
                    Expr::Variable(v) => Ok(Expr::Assign(ExprAssign { name: v.name, value })),
                    _ => Err(
                        ParsingError::custom_no_sync(equals.span, "Invalid assignment target."),
                    ),
                }
            },
            None => Ok(target),
        }
    }

    /// Parses one expression.
    pub fn expression(&mut self, arena: &mut AstArena) -> (r: Result<Expr, ParsingError>)
        requires
            old(self).wf(),
            old(arena).wf(),
        ensures
            moved(old(self), final(self), old(arena), final(arena)),
            yields_expr(
                old(self).position(),
                final(self),
                final(arena),
                r,
                old(self).input().expression(old(self).position()),
            ),
        decreases old(self).input().tokens.len() - old(self).position(), 13int,
    {
        self.assignment(arena)
    }
    /// Parses an expression and stores it.
    pub(crate) fn stored_expression(&mut self, arena: &mut AstArena) -> (r: Result<ExprId, ParsingError>)
        requires
            old(self).wf(),
            old(arena).wf(),
        ensures
            moved(old(self), final(self), old(arena), final(arena)),
            yields_expr_id(
                old(self).position(),
                final(self),
                final(arena),
                r,
                old(self).input().expression(old(self).position()),
            ),
        decreases old(self).input().tokens.len() - old(self).position(), 14int,
    {
        let node = self.expression(arena)?;
        self.alloc_expr(arena, node)
    }
}

} // verus!
