//! The steps that begin the execution of a statement.

use crate::ast::AstArena;
use crate::ast::ExprId;
use crate::ast::Stmt;
use crate::ast::StmtId;
use crate::interpreter::balance::lemma_changed_keeps_parents;
use crate::interpreter::balance::lemma_opened_parents;
use crate::interpreter::balance::lemma_unwound_grow;
use crate::interpreter::balance::parents_of;
use crate::environment::Environment;
use crate::interpreter::evaluate::broken_tree;
use crate::interpreter::evaluate::raises;
use crate::interpreter::evaluate::scopes_kept;
use crate::interpreter::Control;
use crate::interpreter::Frame;
use crate::interpreter::Interpreter;
use crate::object::Function;
use crate::object::Object;
use crate::object::ObjectView;
use crate::span::Span;
use crate::tokens::Token;
use vstd::prelude::*;

verus! {

/// `after` is `before` with `name` bound, in the scope that is current, to
/// a value whose view is `value`.
pub open spec fn binds(
    before: &Environment,
    after: &Environment,
    name: Seq<char>,
    value: ObjectView,
) -> bool {
    exists|object: Object| #[trigger]
        after.changed_at(before, before.current(), before.scope(before.current()).insert(name, object))
            && object@ == value
}

/// What beginning the statement `id` does to the machine.
pub open spec fn begins_stmt(
    before: &Interpreter,
    after: &Interpreter,
    arena: &AstArena,
    id: StmtId,
) -> bool {
    &&& after.depths == before.depths
    &&& if !arena.has_stmt(id) {
        scopes_kept(before, after) && after.kont == before.kont && raises(
            after.control,
            Span::origin(),
            broken_tree(),
        )
    } else {
        match arena.stmt(id) {
            Stmt::Expression(s) => scopes_kept(before, after) && after.kont@ == before.kont@.push(
                Frame::Discard,
            ) && after.control == Control::Expr(s.expr),
            Stmt::Print(s) => scopes_kept(before, after) && after.kont@ == before.kont@.push(
                Frame::Print,
            ) && after.control == Control::Expr(s.expr),
            Stmt::If(s) => scopes_kept(before, after) && after.kont@ == before.kont@.push(
                Frame::If(id),
            ) && after.control == Control::Expr(s.condition),
            Stmt::While(s) => scopes_kept(before, after) && after.kont@ == before.kont@.push(
                Frame::WhileCondition(id),
            ) && after.control == Control::Expr(s.condition),
            Stmt::Return(s) => scopes_kept(before, after) && match s.expr {
                Some(e) => after.kont@ == before.kont@.push(Frame::ReturnValue) && after.control
                    == Control::Expr(e),
                None => after.kont == before.kont && after.control == Control::Return(Object::Nil),
            },
            Stmt::Var(s) => match s.initializer {
                Some(e) => scopes_kept(before, after) && after.kont@ == before.kont@.push(
                    Frame::Define(id),
                ) && after.control == Control::Expr(e),
                None => after.kont == before.kont && after.control is Done && binds(
                    &before.env,
                    &after.env,
                    s.ident@.text(),
                    ObjectView::Nil,
                ),
            },
            Stmt::Block(_) => after.control is Done && after.kont@ == before.kont@.push(
                Frame::Block { stmt: id, next: 0 },
            ) && after.env.opened_from(&before.env),
            Stmt::Function(f) => after.kont == before.kont && if f.params@.len() <= 255 {
                after.control is Done && binds(
                    &before.env,
                    &after.env,
                    f.name@.text(),
                    ObjectView::Function {
                        decl: id,
                        name: f.name@.text(),
                        arity: f.params@.len() as u8,
                        env: before.env.current(),
                    },
                )
            } else {
                after.env == before.env && raises(after.control, f.name.span, broken_tree())
            },
        }
    }
}

impl Interpreter {
    /// Puts `frame`, which owes no scope, on the continuation and turns to
    /// the statement's expression.
    fn wait_for(&mut self, frame: Frame, expr: ExprId)
        requires
            !crate::interpreter::closes_scope(frame),
        ensures
            final(self).keeps_scopes(old(self)),
            scopes_kept(old(self), final(self)),
            final(self).kont@ == old(self).kont@.push(frame),
            final(self).control == Control::Expr(expr),
            old(self).balanced() ==> final(self).balanced(),
    {
        self.descend(frame, expr);
    }

    /// Binds `name` to `value` in the current scope; the statement is done.
    pub(crate) fn bind(&mut self, name: &Token, value: Object)
        requires
            old(self).wf(),
        ensures
            final(self).keeps_scopes(old(self)),
            final(self).wf(),
            final(self).depths == old(self).depths,
            final(self).kont == old(self).kont,
            final(self).control is Done,
            binds(&old(self).env, &final(self).env, name@.text(), value@),
            final(self).parents() == old(self).parents(),
            final(self).env.current() == old(self).env.current(),
            final(self).env.global == old(self).env.global,
            old(self).balanced() ==> final(self).balanced(),
    {
        let text = name.as_str();
        self.env.define(text, value);
        self.control = Control::Done;
        proof {
            let map = old(self).env.scope(old(self).env.current()).insert(name@.text(), value);
            assert(self.env.changed_at(&old(self).env, old(self).env.current(), map));
            lemma_changed_keeps_parents(&old(self).env, &self.env, old(self).env.current(), map);
            assert(self.parents() =~= parents_of(&self.env));
            assert(old(self).parents() =~= parents_of(&old(self).env));
        }
    }

    /// Opens a scope for the block `id` and leaves the frame that executes
    /// its statements and closes the scope.
    fn enter_block(&mut self, id: StmtId)
        requires
            old(self).wf(),
        ensures
            final(self).keeps_scopes(old(self)),
            final(self).wf(),
            final(self).depths == old(self).depths,
            final(self).control is Done,
            final(self).kont@ == old(self).kont@.push(Frame::Block { stmt: id, next: 0 }),
            final(self).env.opened_from(&old(self).env),
            old(self).balanced() ==> final(self).balanced(),
    {
        self.env.push_scope();
        self.kont.push(Frame::Block { stmt: id, next: 0 });
        self.control = Control::Done;
        proof {
            if old(self).balanced() {
                lemma_opened_parents(&old(self).env, &self.env);
                assert(old(self).parents() =~= parents_of(&old(self).env));
                assert(self.parents() =~= parents_of(&self.env));
                lemma_unwound_grow(
                    old(self).parents(),
                    Some(old(self).env.current()),
                    old(self).env.current(),
                    old(self).kont@,
                );
                assert(self.kont@.drop_last() =~= old(self).kont@);
            }
        }
    }

    /// Declares the function `id`: its name is bound to a function value
    /// that remembers the current scope.
    fn declare(&mut self, id: StmtId, name: &Token, params: usize)
        requires
            old(self).wf(),
        ensures
            final(self).keeps_scopes(old(self)),
            final(self).wf(),
            final(self).depths == old(self).depths,
            final(self).kont == old(self).kont,
            if params <= 255 {
                final(self).control is Done && binds(
                    &old(self).env,
                    &final(self).env,
                    name@.text(),
                    ObjectView::Function {
                        decl: id,
                        name: name@.text(),
                        arity: params as u8,
                        env: old(self).env.current(),
                    },
                )
            } else {
                final(self).env == old(self).env && raises(
                    final(self).control,
                    name.span,
                    broken_tree(),
                )
            },
            old(self).balanced() ==> final(self).balanced(),
    {
        if params > 255 {
            self.raise(name.span, "Broken syntax tree.");
            return ;
        }
        let text = name.as_str();
        let here = self.env.current_scope();
        let function = Function::new(id, text.as_str(), params as u8, here);
        self.bind(name, Object::Function(function));
    }

    /// Begins the execution of the statement `id`.
    pub(crate) fn begin_stmt(&mut self, arena: &AstArena, id: StmtId)
        requires
            old(self).wf(),
        ensures
            final(self).keeps_scopes(old(self)),
            final(self).wf(),
            begins_stmt(old(self), final(self), arena, id),
            old(self).balanced() ==> final(self).balanced(),
    {
        match arena.get_stmt(id) {
            None => self.raise(Span::default(), "Broken syntax tree."),
            Some(Stmt::Expression(s)) => self.wait_for(Frame::Discard, s.expr),
            Some(Stmt::Print(s)) => self.wait_for(Frame::Print, s.expr),
            Some(Stmt::If(s)) => self.wait_for(Frame::If(id), s.condition),
            Some(Stmt::While(s)) => self.wait_for(Frame::WhileCondition(id), s.condition),
            Some(Stmt::Return(s)) => match s.expr {
                Some(e) => self.wait_for(Frame::ReturnValue, e),
                None => {
                    self.control = Control::Return(Object::Nil);
                },
            },
            Some(Stmt::Var(s)) => match s.initializer {
                Some(e) => self.wait_for(Frame::Define(id), e),
                None => self.bind(&s.ident, Object::Nil),
            },
            Some(Stmt::Block(_)) => self.enter_block(id),
            Some(Stmt::Function(f)) => self.declare(id, &f.name, f.params.len()),
        }
    }
}

} // verus!
