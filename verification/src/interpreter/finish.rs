//! The steps that hand a value to the statement that waits for it, and the
//! step that assigns.

use crate::ast::AstArena;
use crate::ast::Expr;
use crate::ast::ExprId;
use crate::ast::Stmt;
use crate::ast::StmtId;
use crate::chain::SharedNode;
use crate::error::RuntimeError;
use crate::interpreter::evaluate::broken_tree;
use crate::interpreter::evaluate::lemma_unwound_push;
use crate::interpreter::evaluate::raises;
use crate::interpreter::evaluate::scopes_kept;
use crate::interpreter::execute::binds;
use crate::interpreter::Control;
use crate::interpreter::Frame;
use crate::interpreter::Interpreter;
use crate::object::truthy;
use crate::object::Object;
use crate::span::Span;
use crate::tokens::Token;
use vstd::prelude::*;

verus! {

/// The message of an assignment to a name that is not bound.
pub open spec fn unbound_message(name: Seq<char>) -> Seq<char> {
    "Undefined variable '"@ + name + "'."@
}

impl AstArena {
    /// The variable declaration that `id` names, if it names one.
    pub open spec fn get_var(&self, id: StmtId) -> Option<crate::ast::StmtVar> {
        if self.has_stmt(id) && self.stmt(id) is Var {
            Some(self.stmt(id)->Var_0)
        } else {
            None
        }
    }

    /// The `if` that `id` names, if it names one.
    pub open spec fn get_if(&self, id: StmtId) -> Option<crate::ast::StmtIf> {
        if self.has_stmt(id) && self.stmt(id) is If {
            Some(self.stmt(id)->If_0)
        } else {
            None
        }
    }

    /// The `while` that `id` names, if it names one.
    pub open spec fn get_while(&self, id: StmtId) -> Option<crate::ast::StmtWhile> {
        if self.has_stmt(id) && self.stmt(id) is While {
            Some(self.stmt(id)->While_0)
        } else {
            None
        }
    }

    /// The statements of the block that `id` names, if it names one.
    pub open spec fn get_block(&self, id: StmtId) -> Option<Seq<StmtId>> {
        if self.has_stmt(id) && self.stmt(id) is Block {
            Some(self.stmt(id)->Block_0.statements@)
        } else {
            None
        }
    }

    /// The function that `id` names, if it names one.
    pub open spec fn get_function(&self, id: StmtId) -> Option<crate::ast::StmtFunction> {
        if self.has_stmt(id) && self.stmt(id) is Function {
            Some(self.stmt(id)->Function_0)
        } else {
            None
        }
    }
}

/// What [`Interpreter::apply_assign`] does to the machine.
pub open spec fn applied_assign(
    before: &Interpreter,
    after: &Interpreter,
    arena: &AstArena,
    id: ExprId,
    v: Object,
) -> bool {
    &&& after.depths == before.depths
    &&& after.kont == before.kont
    &&& after.parents() == before.parents()
    &&& after.env.current() == before.env.current()
    &&& after.env.global == before.env.global
    &&& match arena.get_assign(id) {
        Some(a) => match before.target(id, a.name@.text()) {
            Some(node) => after.control == Control::Value(v) && after.env.changed_at(
                &before.env,
                node,
                before.env.scope(node).insert(a.name@.text(), v),
            ),
            None => raises(
                after.control,
                a.name.span,
                unbound_message(a.name@.text()),
            ) && after.env.same_as(&before.env),
        },
        None => raises(after.control, Span::origin(), broken_tree()) && after.env == before.env,
    }
}

/// What [`Interpreter::finish_var`] does to the machine.
pub open spec fn finished_var(
    before: &Interpreter,
    after: &Interpreter,
    arena: &AstArena,
    stmt: StmtId,
    v: Object,
) -> bool {
    &&& after.depths == before.depths
    &&& after.kont == before.kont
    &&& after.parents() == before.parents()
    &&& after.env.current() == before.env.current()
    &&& after.env.global == before.env.global
    &&& match arena.get_var(stmt) {
        Some(s) => after.control is Done && binds(
            &before.env,
            &after.env,
            s.ident@.text(),
            v@,
        ),
        None => raises(after.control, Span::origin(), broken_tree()) && after.env == before.env,
    }
}

/// What [`Interpreter::finish_if`] does to the machine.
pub open spec fn finished_if(
    before: &Interpreter,
    after: &Interpreter,
    arena: &AstArena,
    stmt: StmtId,
    v: Object,
) -> bool {
    &&& scopes_kept(before, after)
    &&& after.kont == before.kont
    &&& match arena.get_if(stmt) {
        Some(s) => after.control == (if truthy(v@) {
            Control::Stmt(s.then_branch)
        } else {
            match s.else_branch {
                Some(e) => Control::Stmt(e),
                None => Control::Done,
            }
        }),
        None => raises(after.control, Span::origin(), broken_tree()),
    }
}

/// What [`Interpreter::finish_condition`] does to the machine.
pub open spec fn finished_condition(
    before: &Interpreter,
    after: &Interpreter,
    arena: &AstArena,
    stmt: StmtId,
    v: Object,
) -> bool {
    &&& scopes_kept(before, after)
    &&& match arena.get_while(stmt) {
        Some(s) => if truthy(v@) {
            after.kont@ == before.kont@.push(Frame::WhileBody(stmt)) && after.control
                == Control::Stmt(s.body)
        } else {
            after.kont == before.kont && after.control is Done
        },
        None => after.kont == before.kont && raises(
            after.control,
            Span::origin(),
            broken_tree(),
        ),
    }
}

/// What [`Interpreter::repeat`] does to the machine.
pub open spec fn repeated(
    before: &Interpreter,
    after: &Interpreter,
    arena: &AstArena,
    stmt: StmtId,
) -> bool {
    &&& scopes_kept(before, after)
    &&& match arena.get_while(stmt) {
        Some(s) => after.kont@ == before.kont@.push(Frame::WhileCondition(stmt))
            && after.control == Control::Expr(s.condition),
        None => after.kont == before.kont && raises(
            after.control,
            Span::origin(),
            broken_tree(),
        ),
    }
}

impl Interpreter {
    /// The scope in which the assignment `id` to `name` takes place: the
    /// scope at the depth that the resolver noted for the assignment, if it
    /// noted one and that scope binds the name, and else the nearest scope
    /// that binds the name.
    pub open spec fn target(&self, id: ExprId, name: Seq<char>) -> Option<SharedNode> {
        if self.depths@.dom().contains(id.raw) {
            let depth = self.depths@[id.raw];
            if depth < self.env.scopes().len() && self.env.scope(
                self.env.scopes()[depth as int],
            ).dom().contains(name) {
                Some(self.env.scopes()[depth as int])
            } else {
                None
            }
        } else {
            self.env.binder(self.env.scopes(), name)
        }
    }

    /// Assigns `v` to `name` for the assignment `id`.
    fn assign(&mut self, id: ExprId, name: &Token, v: Object)
        requires
            old(self).wf(),
        ensures
            final(self).keeps_scopes(old(self)),
            final(self).wf(),
            final(self).depths == old(self).depths,
            final(self).kont == old(self).kont,
            final(self).parents() == old(self).parents(),
            final(self).env.current() == old(self).env.current(),
            final(self).env.global == old(self).env.global,
            match old(self).target(id, name@.text()) {
                Some(node) => final(self).control == Control::Value(v)
                    && final(self).env.changed_at(
                    &old(self).env,
                    node,
                    old(self).env.scope(node).insert(name@.text(), v),
                ),
                None => raises(final(self).control, name.span, unbound_message(name@.text()))
                    && final(self).env.same_as(&old(self).env),
            },
    {
        let text = name.as_str();
        let assigned = match self.depths.get(id) {
            Some(depth) => self.env.assign_at(depth, text.as_str(), v),
            None => self.env.assign(text.as_str(), v),
        };
        proof {
            assert(self.parents() =~= old(self).parents());
        }
        match assigned {
            Ok(value) => {
                self.control = Control::Value(value);
            },
            Err(e) => {
                let message = e.to_string();
                self.control = Control::Raise(RuntimeError::with_token(name.span, message.as_str()));
            },
        }
    }

    /// Assigns `v` to the variable of the assignment `id`; `v` is the value
    /// of the assignment.
    pub(crate) fn apply_assign(&mut self, arena: &AstArena, id: ExprId, v: Object)
        requires
            old(self).wf(),
        ensures
            final(self).keeps_scopes(old(self)),
            applied_assign(old(self), final(self), arena, id, v),
            final(self).wf(),
    {
        match arena.get_expr(id) {
            Some(Expr::Assign(a)) => self.assign(id, &a.name, v),
            _ => self.raise(Span::default(), "Broken syntax tree."),
        }
    }

    /// Binds the variable of the declaration `stmt` to `v`.
    pub(crate) fn finish_var(&mut self, arena: &AstArena, stmt: StmtId, v: Object)
        requires
            old(self).wf(),
        ensures
            final(self).keeps_scopes(old(self)),
            finished_var(old(self), final(self), arena, stmt, v),
            final(self).wf(),
    {
        match arena.get_stmt(stmt) {
            Some(Stmt::Var(s)) => self.bind(&s.ident, v),
            _ => self.raise(Span::default(), "Broken syntax tree."),
        }
    }

    /// Chooses the branch of the `if` statement `stmt` by the value `v` of
    /// its condition.
    pub(crate) fn finish_if(&mut self, arena: &AstArena, stmt: StmtId, v: Object)
        ensures
            final(self).keeps_scopes(old(self)),
            finished_if(old(self), final(self), arena, stmt, v),
    {
        match arena.get_stmt(stmt) {
            Some(Stmt::If(s)) => {
                if v.is_truthy() {
                    self.control = Control::Stmt(s.then_branch);
                } else {
                    match s.else_branch {
                        Some(e) => {
                            self.control = Control::Stmt(e);
                        },
                        None => {
                            self.control = Control::Done;
                        },
                    }
                }
            },
            _ => self.raise(Span::default(), "Broken syntax tree."),
        }
    }

    /// Runs the body of the `while` statement `stmt` if the value `v` of
    /// its condition is true, and leaves the frame that evaluates the
    /// condition again; else the statement is done.
    pub(crate) fn finish_condition(&mut self, arena: &AstArena, stmt: StmtId, v: Object)
        ensures
            final(self).keeps_scopes(old(self)),
            finished_condition(old(self), final(self), arena, stmt, v),
            old(self).balanced() ==> final(self).balanced(),
    {
        match arena.get_stmt(stmt) {
            Some(Stmt::While(s)) => {
                if v.is_truthy() {
                    proof {
                        lemma_unwound_push(
                            self.parents(),
                            self.env.current(),
                            self.kont@,
                            Frame::WhileBody(stmt),
                        );
                    }
                    self.kont.push(Frame::WhileBody(stmt));
                    self.control = Control::Stmt(s.body);
                } else {
                    self.control = Control::Done;
                }
            },
            _ => self.raise(Span::default(), "Broken syntax tree."),
        }
    }

    /// Evaluates the condition of the `while` statement `stmt` again.
    pub(crate) fn repeat(&mut self, arena: &AstArena, stmt: StmtId)
        ensures
            final(self).keeps_scopes(old(self)),
            repeated(old(self), final(self), arena, stmt),
            old(self).balanced() ==> final(self).balanced(),
    {
        match arena.get_stmt(stmt) {
            Some(Stmt::While(s)) => self.descend(Frame::WhileCondition(stmt), s.condition),
            _ => self.raise(Span::default(), "Broken syntax tree."),
        }
    }
}

} // verus!
