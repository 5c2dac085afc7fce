//! Parsing `for` statements, which are rewritten as `while` loops.

use crate::ast::lemma_expr_parts;
use crate::ast::lemma_expr_tree_stable;
use crate::ast::lemma_extends_count;
use crate::ast::lemma_extends_refl;
use crate::ast::lemma_stmt_parts;
use crate::ast::lemma_stmt_tree_stable;
use crate::ast::AstArena;
use crate::ast::Expr;
use crate::ast::ExprId;
use crate::ast::ExprLiteral;
use crate::ast::Literal;
use crate::ast::Stmt;
use crate::ast::StmtBlock;
use crate::ast::StmtExpression;
use crate::ast::StmtId;
use crate::ast::StmtTree;
use crate::ast::StmtWhile;
use crate::error::ParsingError;
use crate::grammar::Input;
use crate::grammar::Parsed;
use crate::parser::clauses_stored;
use crate::parser::lemma_clauses_stable;
use crate::parser::moved;
use crate::parser::yields_stmt;
use crate::parser::Parser;
use crate::tokens::TokenKind;
use vstd::prelude::*;

verus! {

impl Parser {
    /// The first clause of a `for`, stored if there is one.
    pub(crate) fn for_initializer(&mut self, arena: &mut AstArena) -> (r: Result<Option<StmtId>, ParsingError>)
        requires
            old(self).wf(),
            old(arena).wf(),
        ensures
            moved(old(self), final(self), old(arena), final(arena)),
            r matches Ok(Some(id)) ==> final(arena).has_stmt(id) && final(arena).rank(id.raw)
                < final(arena).count(),
            final(arena).has_room() ==> match old(self).input().for_initializer(
                old(self).position(),
            ) {
                Parsed::Good { value, pos } => old(self).position() < pos && final(self).position()
                    == pos && (r matches Ok(found) && final(arena).opt_stmt_tree(found) == value),
                Parsed::Bad { error, pos } => final(self).position() == pos && (r matches Err(err)
                    && err@ == error),
            },
        decreases old(self).input().tokens.len() - old(self).position(), 21int,
    {
        match self.peek_kind() {
            Some(TokenKind::Semicolon) => {
                self.consume(TokenKind::Semicolon)?;
                Ok(None)
            },
            Some(TokenKind::Var) => {
                let node = self.var_decl(arena)?;
                Ok(Some(self.alloc_stmt(arena, node)?))
            },
            _ => {
                let node = self.expression_stmt(arena)?;
                Ok(Some(self.alloc_stmt(arena, node)?))
            },
        }
    }

    /// An expression, stored, unless a token of kind `stop` stands there.
    pub(crate) fn optional_expression(&mut self, arena: &mut AstArena, stop: TokenKind) -> (r: Result<
        Option<ExprId>,
        ParsingError,
    >)
        requires
            old(self).wf(),
            old(arena).wf(),
        ensures
            moved(old(self), final(self), old(arena), final(arena)),
            r matches Ok(Some(id)) ==> final(arena).has_expr(id) && final(arena).rank(id.raw)
                < final(arena).count(),
            final(arena).has_room() ==> match old(self).input().optional_expression(
                old(self).position(),
                stop,
            ) {
                Parsed::Good { value, pos } => final(self).position() == pos && (r matches Ok(found)
                    && final(arena).opt_expr_tree(found) == value),
                Parsed::Bad { error, pos } => final(self).position() == pos && (r matches Err(err)
                    && err@ == error),
            },
        decreases old(self).input().tokens.len() - old(self).position(), 21int,
    {
        match self.peek_kind() {
            Some(k) => {
                if k == stop {
                    return Ok(None);
                }
            },
            None => {},
        }
        Ok(Some(self.stored_expression(arena)?))
    }

    /// The three clauses of a `for` between their parentheses, after the keyword.
    pub(crate) fn for_clauses(&mut self, arena: &mut AstArena) -> (r: Result<
        (Option<StmtId>, Option<ExprId>, Option<ExprId>),
        ParsingError,
    >)
        requires
            old(self).wf(),
            old(arena).wf(),
        ensures
            moved(old(self), final(self), old(arena), final(arena)),
            r matches Ok(c) ==> clauses_stored(final(arena), c)
                && old(self).position() < final(self).position(),
            final(arena).has_room() ==> match old(self).input().for_clauses(old(self).position()) {
                Parsed::Good { value, pos } => old(self).position() < pos && final(self).position()
                    == pos && (r matches Ok(c) && final(arena).opt_stmt_tree(c.0) == value.0
                    && final(arena).opt_expr_tree(c.1) == value.1 && final(arena).opt_expr_tree(c.2)
                    == value.2),
                Parsed::Bad { error, pos } => final(self).position() == pos && (r matches Err(err)
                    && err@ == error),
            },
        decreases old(self).input().tokens.len() - old(self).position(), 22int,
    {
        self.consume(TokenKind::For)?;
        self.consume(TokenKind::LeftParen)?;
        let initialization = self.for_initializer(arena)?;
        let ghost a1 = *arena;
        let condition = self.optional_expression(arena, TokenKind::Semicolon)?;
        let ghost a2 = *arena;
        self.consume(TokenKind::Semicolon)?;
        let increment = self.optional_expression(arena, TokenKind::RightParen)?;
        self.consume(TokenKind::RightParen)?;
        proof {
            if let Some(id) = initialization {
                lemma_stmt_tree_stable(&a1, arena, id);
            }
            if let Some(id) = condition {
                lemma_expr_tree_stable(&a2, arena, id);
            }
        }
        Ok((initialization, condition, increment))
    }

    /// Stores the body of the loop that a `for` statement stands for: a
    /// block of the statement's body and, after it, the increment if there
    /// is one.
    fn for_body(&self, arena: &mut AstArena, body: StmtId, increment: Option<ExprId>) -> (r: Result<
        StmtId,
        ParsingError,
    >)
        requires
            old(arena).wf(),
            old(arena).has_stmt(body),
            increment matches Some(inc) ==> old(arena).has_expr(inc),
        ensures
            final(arena).wf(),
            final(arena).extends(old(arena)),
            r is Err ==> !final(arena).has_room(),
            r matches Ok(id) ==> final(arena).has_stmt(id) && final(arena).rank(id.raw) < final(arena).count() && final(arena).stmt_tree(id) == Input::for_body(
                old(arena).stmt_tree(body),
                old(arena).opt_expr_tree(increment),
            ),
    {
        let ghost a0 = *arena;
        proof {
            lemma_stmt_parts(arena, body);
        }
        let mut statements: Vec<StmtId> = Vec::new();
        statements.push(body);
        match increment {
            Some(inc) => {
                proof {
                    lemma_expr_parts(arena, inc);
                }
                let step = self.alloc_stmt(arena, Stmt::Expression(StmtExpression { expr: inc }))?;
                proof {
                    lemma_stmt_tree_stable(&a0, arena, body);
                }
                statements.push(step);
            },
            None => {},
        }
        let ghost a1 = *arena;
        let block = Stmt::Block(StmtBlock { statements });
        proof {
            lemma_extends_count(&a0, &a1);
            assert(a1.stmt_node_tree(block, a1.count())->Block_0 =~= Input::for_body(
                a0.stmt_tree(body),
                a0.opt_expr_tree(increment),
            )->Block_0);
        }
        self.alloc_stmt(arena, block)
    }

    /// The condition of the loop that a `for` statement stands for: the
    /// condition that is written, or a stored literal `true`, carried by
    /// the closing token, if none is.
    fn for_condition(&self, arena: &mut AstArena, condition: Option<ExprId>) -> (r: Result<
        ExprId,
        ParsingError,
    >)
        requires
            self.wf(),
            old(arena).wf(),
            condition matches Some(c) ==> old(arena).has_expr(c),
        ensures
            final(arena).wf(),
            final(arena).extends(old(arena)),
            r is Err ==> !final(arena).has_room(),
            r matches Ok(id) ==> final(arena).has_expr(id) && final(arena).rank(id.raw) < final(arena).count() && final(arena).expr_tree(id) == self.input().for_condition(
                old(arena).opt_expr_tree(condition),
            ),
    {
        match condition {
            Some(c) => {
                proof {
                    lemma_expr_parts(arena, c);
                    lemma_extends_refl(arena);
                }
                Ok(c)
            },
            None => {
                let truth = Expr::Literal(
                    ExprLiteral { token: self.eof_token(), literal: Literal::Boolean(true) },
                );
                self.alloc_expr(arena, truth)
            },
        }
    }

    /// Stores the loop that a `for` statement stands for.
    fn for_loop(
        &self,
        arena: &mut AstArena,
        condition: Option<ExprId>,
        increment: Option<ExprId>,
        body: StmtId,
    ) -> (r: Result<StmtId, ParsingError>)
        requires
            self.wf(),
            old(arena).wf(),
            old(arena).has_stmt(body),
            condition matches Some(c) ==> old(arena).has_expr(c),
            increment matches Some(inc) ==> old(arena).has_expr(inc),
        ensures
            final(arena).wf(),
            final(arena).extends(old(arena)),
            r is Err ==> !final(arena).has_room(),
            r matches Ok(id) ==> final(arena).has_stmt(id) && final(arena).rank(id.raw) < final(arena).count() && final(arena).stmt_tree(id) == StmtTree::While(
                self.input().for_condition(old(arena).opt_expr_tree(condition)),
                Box::new(
                    Input::for_body(
                        old(arena).stmt_tree(body),
                        old(arena).opt_expr_tree(increment),
                    ),
                ),
            ),
    {
        let ghost a0 = *arena;
        let inner = self.for_body(arena, body, increment)?;
        let ghost a1 = *arena;
        proof {
            if let Some(c) = condition {
                lemma_expr_tree_stable(&a0, &a1, c);
            }
        }
        let test = self.for_condition(arena, condition)?;
        let ghost a2 = *arena;
        proof {
            lemma_stmt_tree_stable(&a1, &a2, inner);
            lemma_extends_count(&a1, &a2);
        }
        self.alloc_stmt(arena, Stmt::While(StmtWhile { condition: test, body: inner }))
    }

    /// Builds the statement that a `for` statement with these parts stands
    /// for: a block of the initializer, if there is one, and the loop.
    pub(crate) fn desugar_for(
        &self,
        arena: &mut AstArena,
        clauses: (Option<StmtId>, Option<ExprId>, Option<ExprId>),
        body: StmtId,
    ) -> (r: Result<Stmt, ParsingError>)
        requires
            self.wf(),
            old(arena).wf(),
            clauses_stored(old(arena), clauses),
            old(arena).has_stmt(body),
        ensures
            final(arena).wf(),
            final(arena).extends(old(arena)),
            r matches Ok(s) ==> final(arena).stmt_closed(s, final(arena).count()),
            final(arena).has_room() ==> (r matches Ok(s) && final(arena).stmt_node_tree(
                s,
                final(arena).count(),
            ) == self.input().desugared_for(
                old(arena).opt_stmt_tree(clauses.0),
                old(arena).opt_expr_tree(clauses.1),
                old(arena).opt_expr_tree(clauses.2),
                old(arena).stmt_tree(body),
            )),
    {
        let ghost a0 = *arena;
        let looping = self.for_loop(arena, clauses.1, clauses.2, body)?;
        let mut statements: Vec<StmtId> = Vec::new();
        match clauses.0 {
            Some(init) => {
                proof {
                    lemma_stmt_parts(&a0, init);
                    lemma_stmt_tree_stable(&a0, arena, init);
                }
                statements.push(init);
            },
            None => {},
        }
        statements.push(looping);
        let block = Stmt::Block(StmtBlock { statements });
        proof {
            assert(arena.stmt_node_tree(block, arena.count())->Block_0 =~= self.input().desugared_for(
                a0.opt_stmt_tree(clauses.0),
                a0.opt_expr_tree(clauses.1),
                a0.opt_expr_tree(clauses.2),
                a0.stmt_tree(body),
            )->Block_0);
        }
        Ok(block)
    }

    pub(crate) fn for_stmt(&mut self, arena: &mut AstArena) -> (r: Result<Stmt, ParsingError>)
        requires
            old(self).wf(),
            old(arena).wf(),
        ensures
            moved(old(self), final(self), old(arena), final(arena)),
            yields_stmt(
                old(self).position(),
                final(self),
                final(arena),
                r,
                old(self).input().for_stmt(old(self).position()),
            ),
        decreases old(self).input().tokens.len() - old(self).position(), 33int,
    {
        let clauses = self.for_clauses(arena)?;
        let ghost a1 = *arena;
        let body = self.stored_statement(arena)?;
        let ghost a2 = *arena;
        proof {
            lemma_clauses_stable(&a1, &a2, clauses);
        }
        self.desugar_for(arena, clauses, body)
    }
}

} // verus!
