//! Parsing statements and declarations.

use crate::ast::lemma_expr_tree_stable;
use crate::ast::lemma_extends_count;
use crate::ast::lemma_extends_trans;
use crate::ast::lemma_stmt_tree_stable;
use crate::ast::AstArena;
use crate::ast::ExprId;
use crate::ast::Stmt;
use crate::ast::StmtBlock;
use crate::ast::StmtExpression;
use crate::ast::StmtFunction;
use crate::ast::StmtId;
use crate::ast::StmtIf;
use crate::ast::StmtPrint;
use crate::ast::StmtReturn;
use crate::ast::StmtTree;
use crate::ast::StmtVar;
use crate::ast::StmtWhile;
use crate::error::ParsingError;
use crate::grammar::Parsed;
use crate::grammar::MAX_ARITY;
use crate::parser::all_stmts;
use crate::parser::lemma_stmts_stable;
use crate::parser::moved;
use crate::parser::with_prefix;
use crate::parser::yields_expr_id;
use crate::parser::yields_stmt;
use crate::parser::yields_stmt_id;
use crate::parser::yields_stmts;
use crate::parser::Parser;
use crate::scanner::views;
use crate::tokens::Token;
use crate::tokens::TokenKind;
use crate::tokens::TokenView;
use vstd::prelude::*;

verus! {

impl Parser {
    pub(crate) fn expression_stmt(&mut self, arena: &mut AstArena) -> (r: Result<Stmt, ParsingError>)
        requires
            old(self).wf(),
            old(arena).wf(),
        ensures
            moved(old(self), final(self), old(arena), final(arena)),
            yields_stmt(
                old(self).position(),
                final(self),
                final(arena),
                r,
                old(self).input().expression_stmt(old(self).position()),
            ),
        decreases old(self).input().tokens.len() - old(self).position(), 20int,
    {
        let node = self.expression(arena)?;
        let expr = self.alloc_expr(arena, node)?;
        self.consume(TokenKind::Semicolon)?;
        Ok(Stmt::Expression(StmtExpression { expr }))
    }

    pub(crate) fn print_stmt(&mut self, arena: &mut AstArena) -> (r: Result<Stmt, ParsingError>)
        requires
            old(self).wf(),
            old(arena).wf(),
        ensures
            moved(old(self), final(self), old(arena), final(arena)),
            yields_stmt(
                old(self).position(),
                final(self),
                final(arena),
                r,
                old(self).input().print_stmt(old(self).position()),
            ),
        decreases old(self).input().tokens.len() - old(self).position(), 20int,
    {
        let print_token = self.consume(TokenKind::Print)?;
        let node = self.expression(arena)?;
        let expr = self.alloc_expr(arena, node)?;
        self.consume(TokenKind::Semicolon)?;
        Ok(Stmt::Print(StmtPrint { print_token, expr }))
    }

    pub(crate) fn return_stmt(&mut self, arena: &mut AstArena) -> (r: Result<Stmt, ParsingError>)
        requires
            old(self).wf(),
            old(arena).wf(),
        ensures
            moved(old(self), final(self), old(arena), final(arena)),
            yields_stmt(
                old(self).position(),
                final(self),
                final(arena),
                r,
                old(self).input().return_stmt(old(self).position()),
            ),
        decreases old(self).input().tokens.len() - old(self).position(), 20int,
    {
        let return_token = self.consume(TokenKind::Return)?;
        let expr = match self.peek_kind() {
            Some(TokenKind::Semicolon) => None,
            _ => {
                let node = self.expression(arena)?;
                Some(self.alloc_expr(arena, node)?)
            },
        };
        self.consume(TokenKind::Semicolon)?;
        Ok(Stmt::Return(StmtReturn { return_token, expr }))
    }

    pub(crate) fn var_decl(&mut self, arena: &mut AstArena) -> (r: Result<Stmt, ParsingError>)
        requires
            old(self).wf(),
            old(arena).wf(),
        ensures
            moved(old(self), final(self), old(arena), final(arena)),
            yields_stmt(
                old(self).position(),
                final(self),
                final(arena),
                r,
                old(self).input().var_decl(old(self).position()),
            ),
        decreases old(self).input().tokens.len() - old(self).position(), 20int,
    {
        self.consume(TokenKind::Var)?;
        let ident = self.consume_with("identifier")?;
        let initializer = match self.matches(TokenKind::Equal) {
            Some(_) => {
                let node = self.expression(arena)?;
                Some(self.alloc_expr(arena, node)?)
            },
            None => None,
        };
        self.consume(TokenKind::Semicolon)?;
        Ok(Stmt::Var(StmtVar { ident, initializer }))
    }

    pub(crate) fn block(&mut self, arena: &mut AstArena) -> (r: Result<Vec<StmtId>, ParsingError>)
        requires
            old(self).wf(),
            old(arena).wf(),
        ensures
            moved(old(self), final(self), old(arena), final(arena)),
            yields_stmts(
                final(self),
                final(arena),
                r,
                old(self).input().block(old(self).position()),
            ),
            final(arena).has_room() && r is Ok ==> old(self).position() < final(self).position(),
        decreases old(self).input().tokens.len() - old(self).position(), 32int,
    {
        self.consume(TokenKind::LeftBrace)?;
        let mut statements: Vec<StmtId> = Vec::new();
        let ghost input = self.input();
        let ghost goal = input.block_items(self.position());
        assert(arena.stmt_trees(statements@) =~= Seq::<StmtTree>::empty()) by {
            reveal(AstArena::stmt_trees);
        }
        assert(with_prefix(Seq::<StmtTree>::empty(), goal) == goal) by {
            match goal {
                Parsed::Good { value, pos } => {
                    assert(Seq::<StmtTree>::empty() + value =~= value);
                },
                Parsed::Bad { .. } => {},
            }
        }
        loop
            invariant
                moved(old(self), self, old(arena), arena),
                old(self).position() < self.position(),
                input == self.input(),
                old(self).input().block(old(self).position()) == (match goal {
                    Parsed::Good { value, pos: after } => match input.consume(
                        after,
                        TokenKind::RightBrace,
                    ) {
                        Parsed::Good { pos: end, .. } => Parsed::Good { value, pos: end },
                        Parsed::Bad { error, pos: end } => Parsed::Bad { error, pos: end },
                    },
                    Parsed::Bad { error, pos: end } => Parsed::Bad { error, pos: end },
                }),
                all_stmts(arena, statements@),
                arena.has_room() ==> goal == with_prefix(
                    arena.stmt_trees(statements@),
                    input.block_items(self.position()),
                ),
            decreases self.input().tokens.len() - self.position(),
        {
            match self.peek_kind() {
                Some(TokenKind::RightBrace) | None => {
                    proof {
                        if arena.has_room() {
                            assert(arena.stmt_trees(statements@) + Seq::<StmtTree>::empty()
                                =~= arena.stmt_trees(statements@));
                        }
                    }
                    self.consume(TokenKind::RightBrace)?;
                    return Ok(statements);
                },
                _ => {},
            }
            let ghost a0 = *arena;
            let ghost p0 = self.position();
            let ghost trees = arena.stmt_trees(statements@);
            let node = self.declaration(arena)?;
            let ghost a1 = *arena;
            let id = self.alloc_stmt(arena, node)?;
            proof {
                lemma_extends_trans(old(arena), &a1, arena);
                lemma_extends_trans(&a0, &a1, arena);
                lemma_stmts_stable(&a0, arena, statements@);
            }
            statements.push(id);
            proof {
                if arena.has_room() {
                    assert(arena.stmt_trees(statements@) =~= trees + seq![arena.stmt_tree(id)]) by {
                        reveal(AstArena::stmt_trees);
                    }
                    let rest = input.block_items(self.position());
                    assert(with_prefix(trees, input.block_items(p0)) == with_prefix(
                        arena.stmt_trees(statements@),
                        rest,
                    )) by {
                        match rest {
                            Parsed::Good { value, pos } => {
                                assert(trees + (seq![arena.stmt_tree(id)] + value) =~= (trees
                                    + seq![arena.stmt_tree(id)]) + value);
                            },
                            Parsed::Bad { .. } => {},
                        }
                    }
                }
            }
        }
    }

    /// Parses a statement and stores it.
    pub(crate) fn stored_statement(&mut self, arena: &mut AstArena) -> (r: Result<StmtId, ParsingError>)
        requires
            old(self).wf(),
            old(arena).wf(),
        ensures
            moved(old(self), final(self), old(arena), final(arena)),
            yields_stmt_id(
                old(self).position(),
                final(self),
                final(arena),
                r,
                old(self).input().statement(old(self).position()),
            ),
        decreases old(self).input().tokens.len() - old(self).position(), 35int,
    {
        let node = self.statement(arena)?;
        self.alloc_stmt(arena, node)
    }

    /// Parses a condition between parentheses, after the keyword `keyword`,
    /// and stores it.
    pub(crate) fn condition(&mut self, arena: &mut AstArena, keyword: TokenKind) -> (r: Result<
        ExprId,
        ParsingError,
    >)
        requires
            old(self).wf(),
            old(arena).wf(),
            keyword == TokenKind::If || keyword == TokenKind::While,
        ensures
            moved(old(self), final(self), old(arena), final(arena)),
            yields_expr_id(
                old(self).position(),
                final(self),
                final(arena),
                r,
                old(self).input().condition(old(self).position(), keyword),
            ),
            r is Ok ==> old(self).position() < final(self).position(),
        decreases old(self).input().tokens.len() - old(self).position(), 15int,
    {
        self.consume(keyword)?;
        self.consume(TokenKind::LeftParen)?;
        let condition = self.stored_expression(arena)?;
        self.consume(TokenKind::RightParen)?;
        Ok(condition)
    }

    /// The `else` branch of an `if`, stored, if one follows.
    pub(crate) fn else_branch(&mut self, arena: &mut AstArena) -> (r: Result<
        Option<StmtId>,
        ParsingError,
    >)
        requires
            old(self).wf(),
            old(arena).wf(),
        ensures
            moved(old(self), final(self), old(arena), final(arena)),
            r matches Ok(Some(id)) ==> final(arena).has_stmt(id) && final(arena).rank(id.raw)
                < final(arena).count(),
            final(arena).has_room() ==> match old(self).input().else_branch(old(self).position()) {
                Parsed::Good { value, pos } => final(self).position() == pos && (r matches Ok(found)
                    && final(arena).opt_stmt_tree(found) == value),
                Parsed::Bad { error, pos } => final(self).position() == pos && (r matches Err(err)
                    && err@ == error),
            },
        decreases old(self).input().tokens.len() - old(self).position(), 36int,
    {
        proof {
            self.lemma_in_bounds();
        }
        match self.matches(TokenKind::Else) {
            Some(_) => Ok(Some(self.stored_statement(arena)?)),
            None => Ok(None),
        }
    }

    pub(crate) fn if_stmt(&mut self, arena: &mut AstArena) -> (r: Result<Stmt, ParsingError>)
        requires
            old(self).wf(),
            old(arena).wf(),
        ensures
            moved(old(self), final(self), old(arena), final(arena)),
            yields_stmt(
                old(self).position(),
                final(self),
                final(arena),
                r,
                old(self).input().if_stmt(old(self).position()),
            ),
        decreases old(self).input().tokens.len() - old(self).position(), 33int,
    {
        let condition = self.condition(arena, TokenKind::If)?;
        let ghost a1 = *arena;
        let then_branch = self.stored_statement(arena)?;
        let ghost a2 = *arena;
        proof {
            lemma_extends_count(&a1, &a2);
        }
        let else_branch = self.else_branch(arena)?;
        proof {
            lemma_extends_count(&a2, arena);
            lemma_expr_tree_stable(&a1, arena, condition);
            lemma_stmt_tree_stable(&a2, arena, then_branch);
        }
        Ok(Stmt::If(StmtIf { condition, then_branch, else_branch }))
    }

    pub(crate) fn while_stmt(&mut self, arena: &mut AstArena) -> (r: Result<Stmt, ParsingError>)
        requires
            old(self).wf(),
            old(arena).wf(),
        ensures
            moved(old(self), final(self), old(arena), final(arena)),
            yields_stmt(
                old(self).position(),
                final(self),
                final(arena),
                r,
                old(self).input().while_stmt(old(self).position()),
            ),
        decreases old(self).input().tokens.len() - old(self).position(), 33int,
    {
        let condition = self.condition(arena, TokenKind::While)?;
        let ghost a1 = *arena;
        let body = self.stored_statement(arena)?;
        proof {
            lemma_expr_tree_stable(&a1, arena, condition);
        }
        Ok(Stmt::While(StmtWhile { condition, body }))
    }

    pub(crate) fn statement(&mut self, arena: &mut AstArena) -> (r: Result<Stmt, ParsingError>)
        requires
            old(self).wf(),
            old(arena).wf(),
        ensures
            moved(old(self), final(self), old(arena), final(arena)),
            yields_stmt(
                old(self).position(),
                final(self),
                final(arena),
                r,
                old(self).input().statement(old(self).position()),
            ),
        decreases old(self).input().tokens.len() - old(self).position(), 34int,
    {
        match self.peek_kind() {
            Some(TokenKind::If) => self.if_stmt(arena),
            Some(TokenKind::Print) => self.print_stmt(arena),
            Some(TokenKind::Return) => self.return_stmt(arena),
            Some(TokenKind::While) => self.while_stmt(arena),
            Some(TokenKind::For) => self.for_stmt(arena),
            Some(TokenKind::LeftBrace) => {
                let statements = self.block(arena)?;
                proof {
                    reveal(AstArena::stmt_trees);
                    assert(arena.stmt_node_tree(
                        Stmt::Block(StmtBlock { statements }),
                        arena.count(),
                    )->Block_0 =~= arena.stmt_trees(statements@));
                }
                Ok(Stmt::Block(StmtBlock { statements }))
            },
            _ => self.expression_stmt(arena),
        }
    }

    /// One or more names with commas between them.
    pub(crate) fn name_list(&mut self) -> (r: Result<Vec<Token>, ParsingError>)
        requires
            old(self).wf(),
        ensures
            final(self).wf(),
            final(self).input() == old(self).input(),
            old(self).position() <= final(self).position() <= final(self).input().tokens.len(),
            match old(self).input().name_list(old(self).position()) {
                Parsed::Good { value, pos } => final(self).position() == pos && (r matches Ok(names)
                    && views(names@) == value),
                Parsed::Bad { error, pos } => final(self).position() == pos && (r matches Err(err)
                    && err@ == error),
            },
    {
        proof {
            self.lemma_in_bounds();
        }
        let mut names: Vec<Token> = Vec::new();
        let ghost input = self.input();
        let ghost goal = input.name_list(self.position());
        assert(with_prefix(Seq::<TokenView>::empty(), goal) == goal) by {
            match goal {
                Parsed::Good { value, pos } => {
                    assert(Seq::<TokenView>::empty() + value =~= value);
                },
                Parsed::Bad { .. } => {},
            }
        }
        assert(views(names@) =~= Seq::<TokenView>::empty());
        loop
            invariant
                self.wf(),
                input == self.input(),
                input == old(self).input(),
                old(self).position() <= self.position(),
                goal == input.name_list(old(self).position()),
                goal == with_prefix(views(names@), input.name_list(self.position())),
            decreases self.input().tokens.len() - self.position(),
        {
            let ghost p0 = self.position();
            let ghost before = views(names@);
            let name = self.consume_with("parameter name")?;
            let ghost view = name@;
            names.push(name);
            assert(views(names@) =~= before + seq![view]);
            let ghost p1 = self.position();
            match self.matches(TokenKind::Comma) {
                Some(_) => {
                    proof {
                        let rest = input.name_list(p1 + 1);
                        assert(with_prefix(before, input.name_list(p0)) == with_prefix(
                            views(names@),
                            rest,
                        )) by {
                            match rest {
                                Parsed::Good { value, pos } => {
                                    assert(before + (seq![view] + value) =~= (before + seq![view])
                                        + value);
                                },
                                Parsed::Bad { .. } => {},
                            }
                        }
                    }
                },
                None => {
                    return Ok(names);
                },
            }
        }
    }

    pub(crate) fn parameters(&mut self) -> (r: Result<Vec<Token>, ParsingError>)
        requires
            old(self).wf(),
        ensures
            final(self).wf(),
            final(self).input() == old(self).input(),
            old(self).position() <= final(self).position() <= final(self).input().tokens.len(),
            match old(self).input().parameters(old(self).position()) {
                Parsed::Good { value, pos } => final(self).position() == pos && (r matches Ok(names)
                    && views(names@) == value),
                Parsed::Bad { error, pos } => final(self).position() == pos && (r matches Err(err)
                    && err@ == error),
            },
            r matches Ok(names) ==> names@.len() <= MAX_ARITY,
    {
        proof {
            self.lemma_in_bounds();
        }
        match self.peek_kind() {
            Some(TokenKind::RightParen) | None => {
                let names: Vec<Token> = Vec::new();
                assert(views(names@) =~= Seq::<TokenView>::empty());
                return Ok(names);
            },
            _ => {},
        }
        let names = self.name_list()?;
        if names.len() > MAX_ARITY {
            let at = self.here();
            return Err(
                ParsingError::custom_no_sync(at.span, "Can't have more than 255 parameters."),
            );
        }
        Ok(names)
    }

    pub(crate) fn function(&mut self, arena: &mut AstArena) -> (r: Result<Stmt, ParsingError>)
        requires
            old(self).wf(),
            old(arena).wf(),
        ensures
            moved(old(self), final(self), old(arena), final(arena)),
            yields_stmt(
                old(self).position(),
                final(self),
                final(arena),
                r,
                old(self).input().function(old(self).position()),
            ),
        decreases old(self).input().tokens.len() - old(self).position(), 33int,
    {
        self.consume(TokenKind::Fun)?;
        let name = self.consume_with("function name")?;
        self.consume(TokenKind::LeftParen)?;
        let params = self.parameters()?;
        self.consume(TokenKind::RightParen)?;
        let body = self.block(arena)?;
        let f = Stmt::Function(StmtFunction { name, params, body });
        proof {
            reveal(AstArena::stmt_trees);
            assert(arena.stmt_node_tree(f, arena.count())->Function_2 =~= arena.stmt_trees(body@));
            assert(arena.stmt_node_tree(f, arena.count())->Function_1 =~= views(params@));
        }
        Ok(f)
    }

    pub(crate) fn declaration(&mut self, arena: &mut AstArena) -> (r: Result<Stmt, ParsingError>)
        requires
            old(self).wf(),
            old(arena).wf(),
        ensures
            moved(old(self), final(self), old(arena), final(arena)),
            yields_stmt(
                old(self).position(),
                final(self),
                final(arena),
                r,
                old(self).input().declaration(old(self).position()),
            ),
        decreases old(self).input().tokens.len() - old(self).position(), 35int,
    {
        match self.peek_kind() {
            Some(TokenKind::Fun) => self.function(arena),
            Some(TokenKind::Var) => self.var_decl(arena),
            _ => self.statement(arena),
        }
    }
}

} // verus!
