//! The steps that go on after a statement, and the steps that leave
//! frames behind: after a `return`, and after an error.

use crate::ast::AstArena;
use crate::ast::Stmt;
use crate::ast::StmtId;
use crate::chain::SharedNode;
use crate::interpreter::evaluate::broken_tree;
use crate::interpreter::evaluate::raises;
use crate::interpreter::evaluate::scopes_kept;
use crate::interpreter::Control;
use crate::interpreter::Frame;
use crate::interpreter::Interpreter;
use crate::interpreter::Outcome;
use crate::interpreter::Request;
use crate::object::Object;
use crate::span::Span;
use vstd::prelude::*;

verus! {

/// The machine has closed the scope that a block owed.
pub open spec fn left_block(before: &Interpreter, after: &Interpreter) -> bool {
    &&& after.depths == before.depths
    &&& after.env.closed_from(&before.env)
}

/// The machine has closed the scope of a call and is back in the scope `caller`.
pub open spec fn left_call(before: &Interpreter, after: &Interpreter, caller: SharedNode) -> bool {
    &&& after.depths == before.depths
    &&& after.env.wf()
    &&& after.env.global == before.env.global
    &&& after.env.chain.nodes == before.env.chain.nodes
    &&& after.env.current() == (if before.env.chain.holds(caller) {
        caller
    } else {
        match before.env.parent(before.env.current()) {
            Some(p) => p,
            None => before.env.current(),
        }
    })
}

/// What [`Interpreter::resume_block`] does to the machine.
pub open spec fn resumed_block(
    before: &Interpreter,
    after: &Interpreter,
    arena: &AstArena,
    stmt: StmtId,
    next: usize,
) -> bool {
    &&& after.depths == before.depths
    &&& match arena.get_block(stmt) {
        Some(statements) => if next < statements.len() && next < usize::MAX {
            scopes_kept(before, after) && after.kont@ == before.kont@.push(
                Frame::Block { stmt, next: (next + 1) as usize },
            ) && after.control == Control::Stmt(statements[next as int])
        } else {
            left_block(before, after) && after.kont == before.kont
                && after.control is Done
        },
        None => left_block(before, after) && after.kont == before.kont
            && raises(after.control, Span::origin(), broken_tree()),
    }
    &&& after.parents() == before.parents()
}

/// What [`Interpreter::resume_body`] does to the machine.
pub open spec fn resumed_body(
    before: &Interpreter,
    after: &Interpreter,
    arena: &AstArena,
    decl: StmtId,
    next: usize,
    caller: SharedNode,
) -> bool {
    &&& after.depths == before.depths
    &&& match arena.get_function(decl) {
        Some(f) => if next < f.body@.len() && next < usize::MAX {
            scopes_kept(before, after) && after.kont@ == before.kont@.push(
                Frame::Body { decl, next: (next + 1) as usize, caller },
            ) && after.control == Control::Stmt(f.body@[next as int])
        } else {
            left_call(before, after, caller) && after.kont == before.kont
                && after.control == Control::Value(Object::Nil)
        },
        None => left_call(before, after, caller) && after.kont == before.kont
            && raises(after.control, Span::origin(), broken_tree()),
    }
    &&& after.parents() == before.parents()
}

/// What [`Interpreter::resume_program`] does to the machine.
pub open spec fn resumed_program(
    before: &Interpreter,
    after: &Interpreter,
    stmts: Vec<StmtId>,
    next: usize,
    r: Request,
) -> bool {
    &&& scopes_kept(before, after)
    &&& if next < stmts@.len() && next < usize::MAX {
        r is Continue && after.kont@ == before.kont@.push(
            Frame::Program { stmts, next: (next + 1) as usize },
        ) && after.control == Control::Stmt(stmts@[next as int])
    } else {
        r == Request::Finished(Outcome::Executed) && after.kont == before.kont
            && after.control is Idle
    }
}

impl Interpreter {
    /// Takes the top frame off the continuation.
    pub(crate) fn pop_frame(&mut self) -> (frame: Option<Frame>)
        ensures
            final(self).keeps_scopes(old(self)),
            scopes_kept(old(self), final(self)),
            final(self).control == old(self).control,
            old(self).kont@.len() > 0 ==> frame == Some(old(self).kont@.last()) && final(self).kont@
                == old(self).kont@.drop_last(),
            old(self).kont@.len() == 0 ==> frame is None && final(self).kont@ == old(self).kont@,
    {
        self.kont.pop()
    }

    /// Closes the scope that a block owes.
    pub(crate) fn leave_block(&mut self)
        requires
            old(self).wf(),
        ensures
            final(self).keeps_scopes(old(self)),
            final(self).wf(),
            left_block(old(self), final(self)),
            final(self).kont == old(self).kont,
            final(self).control == old(self).control,
            final(self).parents() == old(self).parents(),
    {
        self.env.pop_scope();
        assert(self.parents() =~= old(self).parents());
    }

    /// Closes the scope of a call and goes back to the scope `caller`.
    pub(crate) fn leave_call(&mut self, caller: SharedNode)
        requires
            old(self).wf(),
        ensures
            final(self).keeps_scopes(old(self)),
            final(self).wf(),
            left_call(old(self), final(self), caller),
            final(self).kont == old(self).kont,
            final(self).control == old(self).control,
            final(self).parents() == old(self).parents(),
    {
        self.env.pop_scope();
        self.env.enter(caller);
        assert(self.parents() =~= old(self).parents());
    }

    /// The machine has nothing more to do: the run has ended as `outcome` says.
    pub(crate) fn finish(&mut self, outcome: Outcome) -> (r: Request)
        ensures
            final(self).keeps_scopes(old(self)),
            scopes_kept(old(self), final(self)),
            final(self).kont == old(self).kont,
            final(self).control is Idle,
            r == Request::Finished(outcome),
    {
        self.control = Control::Idle;
        Request::Finished(outcome)
    }

    /// Goes on with the statement at `next` of `statements`, if there is
    /// one, leaving `frame` to go on after it.
    fn go_to(&mut self, statements: &Vec<StmtId>, next: usize, frame: Frame) -> (more: bool)
        requires
            next < usize::MAX,
        ensures
            final(self).keeps_scopes(old(self)),
            scopes_kept(old(self), final(self)),
            more == (next < statements@.len()),
            more ==> final(self).kont@ == old(self).kont@.push(frame) && final(self).control
                == Control::Stmt(statements@[next as int]),
            !more ==> final(self).kont == old(self).kont && final(self).control
                == old(self).control,
    {
        if next < statements.len() {
            self.kont.push(frame);
            self.control = Control::Stmt(statements[next]);
            true
        } else {
            false
        }
    }

    /// Goes on inside the block `stmt`, whose frame was just popped: with
    /// its statement at `next`, or, after its last statement, by closing the
    /// scope of the block.
    pub(crate) fn resume_block(&mut self, arena: &AstArena, stmt: StmtId, next: usize)
        requires
            old(self).wf(),
        ensures
            final(self).keeps_scopes(old(self)),
            resumed_block(old(self), final(self), arena, stmt, next),
            final(self).wf(),
    {
        match arena.get_stmt(stmt) {
            Some(Stmt::Block(b)) => {
                if next < usize::MAX && self.go_to(
                    &b.statements,
                    next,
                    Frame::Block { stmt, next: next + 1 },
                ) {
                } else {
                    self.leave_block();
                    self.control = Control::Done;
                }
            },
            _ => {
                self.leave_block();
                self.raise(Span::default(), "Broken syntax tree.");
            },
        }
    }

    /// Goes on inside the body of the function `decl`, whose frame was
    /// just popped: with its statement at `next`, or, after its last
    /// statement, by leaving the call with nil as its value.
    pub(crate) fn resume_body(
        &mut self,
        arena: &AstArena,
        decl: StmtId,
        next: usize,
        caller: SharedNode,
    )
        requires
            old(self).wf(),
        ensures
            final(self).keeps_scopes(old(self)),
            resumed_body(old(self), final(self), arena, decl, next, caller),
            final(self).wf(),
    {
        match arena.get_stmt(decl) {
            Some(Stmt::Function(f)) => {
                if next < usize::MAX && self.go_to(
                    &f.body,
                    next,
                    Frame::Body { decl, next: next + 1, caller },
                ) {
                } else {
                    self.leave_call(caller);
                    self.control = Control::Value(Object::Nil);
                }
            },
            _ => {
                self.leave_call(caller);
                self.raise(Span::default(), "Broken syntax tree.");
            },
        }
    }

    /// Goes on with the program, whose frame was just popped: with its
    /// statement at `next`, or, after its last statement, by ending the run.
    pub(crate) fn resume_program(&mut self, stmts: Vec<StmtId>, next: usize) -> (r: Request)
        ensures
            final(self).keeps_scopes(old(self)),
            resumed_program(old(self), final(self), stmts, next, r),
    {
        if next < usize::MAX && next < stmts.len() {
            let id = stmts[next];
            self.kont.push(Frame::Program { stmts, next: next + 1 });
            self.control = Control::Stmt(id);
            Request::Continue
        } else {
            self.finish(Outcome::Executed)
        }
    }
}

} // verus!
