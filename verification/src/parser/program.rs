//! Parsing a whole program, with recovery from errors.

use crate::ast::lemma_extends_refl;
use crate::ast::lemma_extends_trans;
use crate::ast::MAX_NODES;
use crate::ast::AstArena;
use crate::ast::StmtId;
use crate::ast::StmtTree;
use crate::error::ParsingError;
use crate::grammar::starts_declaration;
use crate::grammar::Input;
use crate::grammar::ParseErrorView;
use crate::grammar::Parsed;
use crate::grammar::Program;
use crate::parser::all_stmts;
use crate::parser::lemma_stmts_stable;
use crate::parser::moved;
use crate::parser::yields_stmt_id;
use crate::parser::Parser;
use crate::scanner::views;
use crate::tokens::TokenKind;
use vstd::prelude::*;

verus! {

fn begins_declaration(kind: TokenKind) -> (b: bool)
    ensures
        b == starts_declaration(kind),
{
    kind == TokenKind::Class || kind == TokenKind::For || kind == TokenKind::Fun || kind
        == TokenKind::If || kind == TokenKind::Print || kind == TokenKind::Return || kind
        == TokenKind::Var || kind == TokenKind::While
}

/// The views of a sequence of parser errors.
pub open spec fn parse_error_views(errors: Seq<ParsingError>) -> Seq<ParseErrorView> {
    Seq::new(errors.len(), |j: int| errors[j]@)
}

/// `r` is what the grammar makes of the program: the statements if nothing
/// was wrong, else every error.
pub open spec fn yields_program(
    arena: &AstArena,
    r: Result<Vec<StmtId>, Vec<ParsingError>>,
    expected: Program,
) -> bool {
    match r {
        Ok(ids) => expected.errors.len() == 0 && arena.stmt_trees(ids@) == expected.statements,
        Err(errors) => expected.errors.len() > 0 && parse_error_views(errors@) == expected.errors,
    }
}

/// The program made of `statements` and `errors` followed by `rest`.
pub open spec fn joined(
    statements: Seq<StmtTree>,
    errors: Seq<ParseErrorView>,
    rest: Program,
) -> Program {
    Program { statements: statements + rest.statements, errors: errors + rest.errors }
}

/// The declaration at `pos`, put after what was found before it, leaves the
/// rest of the program to be found from where the parser goes on.
pub proof fn lemma_program_step(
    input: Input,
    pos: int,
    trees: Seq<StmtTree>,
    errors: Seq<ParseErrorView>,
    trees_after: Seq<StmtTree>,
    errors_after: Seq<ParseErrorView>,
    stop: bool,
    next: int,
)
    requires
        0 <= pos < input.tokens.len(),
        match input.recovered(pos) {
            Parsed::Good { value, pos: after } => after == next && trees_after == trees.push(value)
                && errors_after == errors,
            Parsed::Bad { error, pos: after } => after == next && trees_after == trees
                && errors_after == errors.push(error),
        },
        !stop ==> input.within(pos, next),
        stop ==> !input.within(pos, next) || next == input.tokens.len(),
    ensures
        joined(trees, errors, input.program_from(pos)) == joined(
            trees_after,
            errors_after,
            if stop {
                Program::empty()
            } else {
                input.program_from(next)
            },
        ),
{
    let rest = if stop {
        Program::empty()
    } else {
        input.program_from(next)
    };
    let whole = input.program_from(pos);
    if stop && input.within(pos, next) {
        assert(input.program_from(next) == Program::empty());
    }
    match input.recovered(pos) {
        Parsed::Good { value, pos: after } => {
            assert(whole.statements == seq![value] + rest.statements);
            assert(trees + (seq![value] + rest.statements) =~= trees.push(value) + rest.statements);
            assert(errors + rest.errors =~= errors_after + rest.errors);
        },
        Parsed::Bad { error, pos: after } => {
            assert(whole.errors == seq![error] + rest.errors);
            assert(errors + (seq![error] + rest.errors) =~= errors.push(error) + rest.errors);
            assert(trees + rest.statements =~= trees_after + rest.statements);
        },
    }
}

impl Parser {
    /// Skips to where parsing can go on after an error.
    pub(crate) fn synchronize(&mut self)
        requires
            old(self).wf(),
        ensures
            final(self).wf(),
            final(self).input() == old(self).input(),
            final(self).position() == old(self).input().synchronize(old(self).position()),
            old(self).position() <= final(self).position(),
    {
        loop
            invariant
                self.wf(),
                self.input() == old(self).input(),
                old(self).position() <= self.position(),
                self.input().synchronize(self.position()) == old(self).input().synchronize(
                    old(self).position(),
                ),
            decreases self.input().tokens.len() - self.position(),
        {
            proof {
                self.lemma_in_bounds();
            }
            match self.advance() {
                Some(tok) => {
                    if tok.ty.kind() == TokenKind::Semicolon {
                        return ;
                    }
                    match self.peek_kind() {
                        Some(k) => {
                            if begins_declaration(k) {
                                return ;
                            }
                        },
                        None => {},
                    }
                },
                None => {
                    return ;
                },
            }
        }
    }

    /// Parses a declaration and stores it.
    pub(crate) fn stored_declaration(&mut self, arena: &mut AstArena) -> (r: Result<
        StmtId,
        ParsingError,
    >)
        requires
            old(self).wf(),
            old(arena).wf(),
        ensures
            moved(old(self), final(self), old(arena), final(arena)),
            yields_stmt_id(
                old(self).position(),
                final(self),
                final(arena),
                r,
                old(self).input().item(old(self).position()),
            ),
    {
        reveal(Input::item);
        let node = self.declaration(arena)?;
        self.alloc_stmt(arena, node)
    }

    /// After an error: skips to where parsing can go on, if the error asks for it.
    pub(crate) fn recover(&mut self, should_sync: bool)
        requires
            old(self).wf(),
        ensures
            final(self).wf(),
            final(self).input() == old(self).input(),
            old(self).position() <= final(self).position() <= final(self).input().tokens.len(),
            final(self).position() == (if should_sync {
                old(self).input().synchronize(old(self).position())
            } else {
                old(self).position()
            }),
    {
        proof {
            self.lemma_in_bounds();
        }
        if should_sync {
            self.synchronize();
            proof {
                self.lemma_in_bounds();
            }
        }
    }

    /// Parses the next declaration and stores it; after an error, skips to
    /// where parsing can go on.
    pub(crate) fn next_declaration(&mut self, arena: &mut AstArena) -> (r: Result<
        StmtId,
        ParsingError,
    >)
        requires
            old(self).wf(),
            old(arena).wf(),
        ensures
            moved(old(self), final(self), old(arena), final(arena)),
            yields_stmt_id(
                old(self).position(),
                final(self),
                final(arena),
                r,
                old(self).input().recovered(old(self).position()),
            ),
    {
        match self.stored_declaration(arena) {
            Ok(id) => Ok(id),
            Err(e) => {
                self.recover(e.should_sync);
                Err(e)
            },
        }
    }

    /// Parses the next declaration and adds it to `stmts`, or its error to `errs`.
    pub(crate) fn collect_declaration(
        &mut self,
        arena: &mut AstArena,
        stmts: &mut Vec<StmtId>,
        errs: &mut Vec<ParsingError>,
    )
        requires
            old(self).wf(),
            old(arena).wf(),
            all_stmts(old(arena), old(stmts)@),
        ensures
            moved(old(self), final(self), old(arena), final(arena)),
            all_stmts(final(arena), final(stmts)@),
            final(errs)@.len() >= old(errs)@.len(),
            final(arena).has_room() ==> match old(self).input().recovered(old(self).position()) {
                Parsed::Good { value, pos } => final(self).position() == pos
                    && final(arena).stmt_trees(final(stmts)@)
                    == old(arena).stmt_trees(old(stmts)@).push(value)
                    && parse_error_views(final(errs)@) == parse_error_views(old(errs)@),
                Parsed::Bad { error, pos } => final(self).position() == pos
                    && final(arena).stmt_trees(final(stmts)@) == old(arena).stmt_trees(old(stmts)@)
                    && parse_error_views(final(errs)@) == parse_error_views(old(errs)@).push(error),
            },
    {
        let ghost a0 = *arena;
        let item = self.next_declaration(arena);
        proof {
            lemma_stmts_stable(&a0, arena, stmts@);
        }
        match item {
            Ok(id) => {
                stmts.push(id);
                proof {
                    reveal(AstArena::stmt_trees);
                    assert(arena.stmt_trees(stmts@) =~= a0.stmt_trees(old(stmts)@).push(
                        arena.stmt_tree(id),
                    ));
                    assert(parse_error_views(errs@) =~= parse_error_views(old(errs)@));
                }
            },
            Err(e) => {
                let ghost view = e@;
                errs.push(e);
                proof {
                    assert(parse_error_views(errs@) =~= parse_error_views(old(errs)@).push(view));
                }
            },
        }
    }

    /// Parses the whole program into `arena`: the ids of its top-level
    /// statements if nothing was wrong, else every error that was found.
    /// After an error the parser goes on with the next declaration.
    pub fn parse(self, arena: &mut AstArena) -> (r: Result<Vec<StmtId>, Vec<ParsingError>>)
        requires
            self.wf(),
            old(arena).wf(),
        ensures
            final(arena).wf(),
            final(arena).extends(old(arena)),
            r matches Ok(ids) ==> all_stmts(final(arena), ids@),
            r matches Err(errors) ==> errors@.len() > 0,
            final(arena).has_room() ==> yields_program(
                final(arena),
                r,
                self.input().program_from(self.position()),
            ),
    {
        let mut parser = self;
        let mut stmts: Vec<StmtId> = Vec::new();
        let mut errs: Vec<ParsingError> = Vec::new();
        let ghost input = self.input();
        let ghost all = input.program_from(self.position());
        proof {
            self.lemma_in_bounds();
            lemma_extends_refl(arena);
            assert(arena.stmt_trees(stmts@) =~= Seq::<StmtTree>::empty()) by {
                reveal(AstArena::stmt_trees);
            }
            assert(parse_error_views(errs@) =~= Seq::<ParseErrorView>::empty());
            assert(Seq::<StmtTree>::empty() + all.statements =~= all.statements);
            assert(Seq::<ParseErrorView>::empty() + all.errors =~= all.errors);
        }
        let mut left = parser.remaining();
        while left > 0
            invariant
                parser.wf(),
                parser.input() == input,
                0 <= parser.position() <= input.tokens.len(),
                left == 0 || left == input.tokens.len() - parser.position(),
                arena.wf(),
                arena.extends(old(arena)),
                all_stmts(arena, stmts@),
                arena.has_room() ==> all == joined(
                    arena.stmt_trees(stmts@),
                    parse_error_views(errs@),
                    if left == 0 {
                        Program::empty()
                    } else {
                        input.program_from(parser.position())
                    },
                ),
            decreases left,
        {
            let ghost a0 = *arena;
            let ghost p0 = parser.position();
            let ghost trees = arena.stmt_trees(stmts@);
            let ghost errors = parse_error_views(errs@);
            parser.collect_declaration(arena, &mut stmts, &mut errs);
            proof {
                lemma_extends_trans(old(arena), &a0, arena);
                parser.lemma_in_bounds();
            }
            let now = parser.remaining();
            let full = arena.len() >= MAX_NODES;
            if full && now > 0 {
                errs.push(
                    ParsingError::custom_no_sync(
                        parser.eof_token().span,
                        "Too many syntax tree nodes.",
                    ),
                );
            }
            left = if now < left && !full {
                now
            } else {
                0
            };
            proof {
                if arena.has_room() {
                    lemma_program_step(
                        input,
                        p0,
                        trees,
                        errors,
                        arena.stmt_trees(stmts@),
                        parse_error_views(errs@),
                        left == 0,
                        parser.position(),
                    );
                }
            }
        }
        proof {
            if arena.has_room() {
                assert(arena.stmt_trees(stmts@) + Seq::<StmtTree>::empty() =~= arena.stmt_trees(
                    stmts@,
                ));
                assert(parse_error_views(errs@) + Seq::<ParseErrorView>::empty()
                    =~= parse_error_views(errs@));
            }
        }
        if errs.len() > 0 {
            Err(errs)
        } else {
            Ok(stmts)
        }
    }
}

} // verus!
