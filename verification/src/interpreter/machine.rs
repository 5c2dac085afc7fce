//! One step of the evaluator.

use crate::interpreter::apply::applied_binary;
use crate::interpreter::apply::applied_logical;
use crate::interpreter::apply::applied_unary;
use crate::ast::lemma_expr_parts;
use crate::ast::AstArena;
use crate::ast::Expr;
use crate::ast::ExprCall;
use crate::ast::ExprId;
use crate::interpreter::balance::lemma_unwound_same_debt;
use crate::interpreter::call::invoked;
use crate::error::RuntimeError;
use crate::interpreter::evaluate::begins_expr;
use crate::interpreter::evaluate::broken_tree;
use crate::interpreter::evaluate::lemma_unwound_push;
use crate::interpreter::evaluate::raises;
use crate::interpreter::evaluate::scopes_kept;
use crate::interpreter::execute::begins_stmt;
use crate::expr::tree_span;
use crate::interpreter::finish::applied_assign;
use crate::interpreter::finish::finished_condition;
use crate::interpreter::finish::finished_if;
use crate::interpreter::finish::finished_var;
use crate::interpreter::finish::repeated;
use crate::interpreter::closes_scope;
use crate::interpreter::Control;
use crate::interpreter::Frame;
use crate::interpreter::Interpreter;
use crate::interpreter::Outcome;
use crate::interpreter::Request;
use crate::object::Object;
use crate::span::Span;
use crate::interpreter::unwind::left_block;
use crate::interpreter::unwind::left_call;
use crate::interpreter::unwind::resumed_block;
use crate::interpreter::unwind::resumed_body;
use crate::interpreter::unwind::resumed_program;
use vstd::prelude::*;

verus! {

/// `mid` is `before` without its top frame.
pub open spec fn popped(before: &Interpreter, mid: &Interpreter) -> bool {
    &&& mid.env == before.env
    &&& mid.depths == before.depths
    &&& before.kont@.len() > 0
    &&& mid.kont@ == before.kont@.drop_last()
}

/// The span of a call for the errors of calling: that of its callee.
pub open spec fn call_span(arena: &AstArena, c: ExprCall) -> Span {
    tree_span(arena.expr_tree(c.callee))
}

/// Whether a frame waits for the value of an expression.
pub open spec fn expects_value(frame: Frame) -> bool {
    !(frame is WhileBody || frame is Block || frame is Body || frame is Program)
}

/// The top frame of `after` holds the arguments `args` of the call `call`
/// of `callee`, above the frames of `mid`.
pub open spec fn holds_args(
    mid: &Interpreter,
    after: &Interpreter,
    call: ExprId,
    callee: Object,
    args: Seq<Object>,
) -> bool {
    &&& after.kont@.len() == mid.kont@.len() + 1
    &&& after.kont@.drop_last() == mid.kont@
    &&& after.kont@.last() matches Frame::Args { call: c, callee: f, args: a } && c == call && f
        == callee && a@ == args
}

/// What the value `v` of the callee of the call `id` leads to: the call
/// itself if it has no arguments, and else the evaluation of the first
/// argument.
pub open spec fn got_callee(
    mid: &Interpreter,
    after: &Interpreter,
    arena: &AstArena,
    id: ExprId,
    v: Object,
    r: Request,
) -> bool {
    match arena.get_call(id) {
        Some(c) => if c.args@.len() == 0 {
            after.depths == mid.depths && invoked(
                mid,
                after,
                arena,
                call_span(arena, c),
                v,
                Seq::empty(),
                r,
            )
        } else {
            scopes_kept(mid, after) && r is Continue && after.control == Control::Expr(c.args@[0])
                && holds_args(mid, after, id, v, Seq::empty())
        },
        None => scopes_kept(mid, after) && after.kont == mid.kont && r is Continue && raises(
            after.control,
            Span::origin(),
            broken_tree(),
        ),
    }
}

/// What the value `v` of an argument of the call `call` leads to, after
/// the arguments `args`: the evaluation of the next argument, or, after the
/// last, the call itself. Arguments are evaluated from left to right.
pub open spec fn got_arg(
    mid: &Interpreter,
    after: &Interpreter,
    arena: &AstArena,
    call: ExprId,
    callee: Object,
    args: Seq<Object>,
    v: Object,
    r: Request,
) -> bool {
    match arena.get_call(call) {
        Some(c) => if args.len() + 1 < c.args@.len() {
            scopes_kept(mid, after) && r is Continue && after.control == Control::Expr(
                c.args@[args.len() as int + 1],
            ) && holds_args(mid, after, call, callee, args.push(v))
        } else {
            after.depths == mid.depths && invoked(
                mid,
                after,
                arena,
                call_span(arena, c),
                callee,
                args.push(v),
                r,
            )
        },
        None => scopes_kept(mid, after) && after.kont == mid.kont && r is Continue && raises(
            after.control,
            Span::origin(),
            broken_tree(),
        ),
    }
}

/// What handing the value `v` to `frame`, which was popped from the
/// machine `mid`, does to the machine.
pub open spec fn resumed_value(
    mid: &Interpreter,
    after: &Interpreter,
    arena: &AstArena,
    frame: Frame,
    v: Object,
    r: Request,
) -> bool {
    match frame {
        Frame::Unary(id) => r is Continue && applied_unary(mid, after, arena, id, v),
        Frame::BinaryLeft(id) => r is Continue && scopes_kept(mid, after) && match arena.get_binary(
            id,
        ) {
            Some(e) => after.kont@ == mid.kont@.push(Frame::BinaryRight(id, v)) && after.control
                == Control::Expr(e.right),
            None => after.kont == mid.kont && raises(after.control, Span::origin(), broken_tree()),
        },
        Frame::BinaryRight(id, left) => applied_binary(mid, after, arena, id, left, v, r),
        Frame::Logical(id) => r is Continue && applied_logical(mid, after, arena, id, v),
        Frame::Assign(id) => r is Continue && applied_assign(mid, after, arena, id, v),
        Frame::Callee(id) => got_callee(mid, after, arena, id, v, r),
        Frame::Args { call, callee, args } => got_arg(mid, after, arena, call, callee, args@, v, r),
        Frame::Print => scopes_kept(mid, after) && after.kont == mid.kont && after.control is Done
            && r == Request::Print(v),
        Frame::Discard => scopes_kept(mid, after) && after.kont == mid.kont && after.control is Done
            && r is Continue,
        Frame::Define(stmt) => r is Continue && finished_var(mid, after, arena, stmt, v),
        Frame::If(stmt) => r is Continue && finished_if(mid, after, arena, stmt, v),
        Frame::WhileCondition(stmt) => r is Continue && finished_condition(
            mid,
            after,
            arena,
            stmt,
            v,
        ),
        Frame::ReturnValue => scopes_kept(mid, after) && after.kont == mid.kont && after.control
            == Control::Return(v) && r is Continue,
        _ => false,
    }
}

/// The machine has given up because `frame` is not what it expected, and
/// has otherwise done nothing.
pub open spec fn confused(before: &Interpreter, after: &Interpreter, r: Request) -> bool {
    &&& scopes_kept(before, after)
    &&& after.kont@ == before.kont@
    &&& raises(after.control, Span::origin(), broken_tree())
    &&& r is Continue
}

/// What the value `v` of an expression leads to: it is handed to the frame
/// on top of the continuation, or, if there is none, the run has ended with
/// that value.
pub open spec fn continued_value(
    before: &Interpreter,
    after: &Interpreter,
    arena: &AstArena,
    v: Object,
    r: Request,
) -> bool {
    if before.kont@.len() == 0 {
        scopes_kept(before, after) && after.kont@ == before.kont@ && after.control is Idle && r
            == Request::Finished(Outcome::Evaluated(v))
    } else if expects_value(before.kont@.last()) {
        exists|mid: Interpreter| #[trigger]
            popped(before, &mid) && resumed_value(&mid, after, arena, before.kont@.last(), v, r)
    } else {
        confused(before, after, r)
    }
}

impl Interpreter {
    /// Puts `frame` back and gives up.
    fn confuse(&mut self, frame: Frame) -> (r: Request)
        ensures
            final(self).keeps_scopes(old(self)),
            scopes_kept(old(self), final(self)),
            final(self).kont@ == old(self).kont@.push(frame),
            raises(final(self).control, Span::origin(), broken_tree()),
            r is Continue,
    {
        self.kont.push(frame);
        self.raise(Span::default(), "Broken syntax tree.");
        Request::Continue
    }

    /// The span of the callee of the call `c`, which the expression `id` is.
    fn span_of_call(&self, arena: &AstArena, id: ExprId, c: &ExprCall) -> (s: Span)
        requires
            arena.wf(),
            arena.has_expr(id),
            arena.expr(id) == Expr::Call(*c),
        ensures
            s == call_span(arena, *c),
    {
        proof {
            lemma_expr_parts(arena, id);
            assert(arena.expr(id).children()[0] == c.callee);
        }
        arena.expr_span(c.callee)
    }

    /// Turns to the right operand of the binary expression `id`, keeping
    /// the value `v` of the left.
    fn keep_left(&mut self, arena: &AstArena, id: ExprId, v: Object)
        ensures
            final(self).keeps_scopes(old(self)),
            scopes_kept(old(self), final(self)),
            match arena.get_binary(id) {
                Some(e) => final(self).kont@ == old(self).kont@.push(Frame::BinaryRight(id, v))
                    && final(self).control == Control::Expr(e.right),
                None => final(self).kont == old(self).kont && raises(
                    final(self).control,
                    Span::origin(),
                    broken_tree(),
                ),
            },
            old(self).balanced() ==> final(self).balanced(),
    {
        match arena.get_expr(id) {
            Some(Expr::Binary(e)) => self.descend(Frame::BinaryRight(id, v), e.right),
            _ => self.raise(Span::default(), "Broken syntax tree."),
        }
    }

    /// Goes on with the call `id` now that its callee is `v`.
    fn apply_callee(&mut self, arena: &AstArena, id: ExprId, v: Object) -> (r: Request)
        requires
            old(self).wf(),
            arena.wf(),
        ensures
            final(self).keeps_scopes(old(self)),
            final(self).wf(),
            got_callee(old(self), final(self), arena, id, v, r),
            old(self).balanced() ==> final(self).balanced(),
    {
        match arena.get_expr(id) {
            Some(Expr::Call(c)) => {
                if c.args.len() == 0 {
                    let span = self.span_of_call(arena, id, c);
                    let args: Vec<Object> = Vec::new();
                    assert(args@ =~= Seq::<Object>::empty());
                    self.invoke(arena, span, v, args)
                } else {
                    let first = c.args[0];
                    let frame = Frame::Args { call: id, callee: v, args: Vec::new() };
                    assert(frame->Args_args@ =~= Seq::<Object>::empty());
                    proof {
                        assert(self.kont@.push(frame).drop_last() =~= self.kont@);
                    }
                    self.descend(frame, first);
                    Request::Continue
                }
            },
            _ => {
                self.raise(Span::default(), "Broken syntax tree.");
                Request::Continue
            },
        }
    }

    /// Goes on with the call `call` now that another argument is `v`.
    fn apply_arg(
        &mut self,
        arena: &AstArena,
        call: ExprId,
        callee: Object,
        args: Vec<Object>,
        v: Object,
    ) -> (r: Request)
        requires
            old(self).wf(),
            arena.wf(),
        ensures
            final(self).keeps_scopes(old(self)),
            final(self).wf(),
            got_arg(old(self), final(self), arena, call, callee, args@, v, r),
            old(self).balanced() ==> final(self).balanced(),
    {
        let mut args = args;
        let ghost before = args@;
        args.push(v);
        match arena.get_expr(call) {
            Some(Expr::Call(c)) => {
                if args.len() < c.args.len() {
                    let next = c.args[args.len()];
                    let frame = Frame::Args { call, callee, args };
                    proof {
                        assert(self.kont@.push(frame).drop_last() =~= self.kont@);
                    }
                    self.descend(frame, next);
                    Request::Continue
                } else {
                    let span = self.span_of_call(arena, call, c);
                    self.invoke(arena, span, callee, args)
                }
            },
            _ => {
                self.raise(Span::default(), "Broken syntax tree.");
                Request::Continue
            },
        }
    }

    /// The statement is done.
    fn done(&mut self)
        ensures
            final(self).keeps_scopes(old(self)),
            scopes_kept(old(self), final(self)),
            final(self).kont == old(self).kont,
            final(self).control is Done,
    {
        self.control = Control::Done;
    }

    /// Hands the value `v` to `frame`, which was popped from the continuation.
    fn resume_value(&mut self, arena: &AstArena, frame: Frame, v: Object) -> (r: Request)
        requires
            old(self).wf(),
            arena.wf(),
        ensures
            final(self).keeps_scopes(old(self)),
            final(self).wf(),
            final(self).depths == old(self).depths,
            expects_value(frame) ==> resumed_value(old(self), final(self), arena, frame, v, r),
            !expects_value(frame) ==> scopes_kept(old(self), final(self)) && final(self).kont@
                == old(self).kont@.push(frame) && raises(
                final(self).control,
                Span::origin(),
                broken_tree(),
            ) && r is Continue,
            expects_value(frame) && old(self).balanced() ==> final(self).balanced(),
    {
        match frame {
            Frame::Unary(id) => {
                self.apply_unary(arena, id, v);
                Request::Continue
            },
            Frame::BinaryLeft(id) => {
                self.keep_left(arena, id, v);
                Request::Continue
            },
            Frame::BinaryRight(id, left) => self.apply_binary(arena, id, left, v),
            Frame::Logical(id) => {
                self.apply_logical(arena, id, v);
                Request::Continue
            },
            Frame::Assign(id) => {
                self.apply_assign(arena, id, v);
                Request::Continue
            },
            Frame::Callee(id) => self.apply_callee(arena, id, v),
            Frame::Args { call, callee, args } => self.apply_arg(arena, call, callee, args, v),
            Frame::Print => {
                self.done();
                Request::Print(v)
            },
            Frame::Discard => {
                self.done();
                Request::Continue
            },
            Frame::Define(stmt) => {
                self.finish_var(arena, stmt, v);
                Request::Continue
            },
            Frame::If(stmt) => {
                self.finish_if(arena, stmt, v);
                Request::Continue
            },
            Frame::WhileCondition(stmt) => {
                self.finish_condition(arena, stmt, v);
                Request::Continue
            },
            Frame::ReturnValue => {
                self.control = Control::Return(v);
                Request::Continue
            },
            other => self.confuse(other),
        }
    }

    /// Hands the value `v` of an expression to the frame that waits for it.
    pub(crate) fn continue_value(&mut self, arena: &AstArena, v: Object) -> (r: Request)
        requires
            old(self).wf(),
            arena.wf(),
        ensures
            final(self).keeps_scopes(old(self)),
            final(self).wf(),
            final(self).depths == old(self).depths,
            continued_value(old(self), final(self), arena, v, r),
            old(self).balanced() ==> final(self).balanced(),
    {
        match self.pop_frame() {
            None => self.finish(Outcome::Evaluated(v)),
            Some(frame) => {
                let ghost mid = *self;
                proof {
                    assert(old(self).kont@ =~= mid.kont@.push(frame));
                    if expects_value(frame) {
                        lemma_unwound_push(mid.parents(), mid.env.current(), mid.kont@, frame);
                    }
                }
                let r = self.resume_value(arena, frame, v);
                proof {
                    if expects_value(frame) {
                        assert(popped(old(self), &mid));
                    }
                }
                r
            },
        }
    }

}

impl Interpreter {
    /// Goes on after a statement, with `frame`, which was popped from the
    /// continuation.
    fn resume_done(&mut self, arena: &AstArena, frame: Frame) -> (r: Request)
        requires
            old(self).wf(),
        ensures
            final(self).keeps_scopes(old(self)),
            final(self).wf(),
            final(self).depths == old(self).depths,
            expects_done(frame) ==> resumed_done(old(self), final(self), arena, frame, r),
            !expects_done(frame) ==> scopes_kept(old(self), final(self)) && final(self).kont@
                == old(self).kont@.push(frame) && raises(
                final(self).control,
                Span::origin(),
                broken_tree(),
            ) && r is Continue,
            final(self).parents() == old(self).parents(),
    {
        match frame {
            Frame::Block { stmt, next } => {
                self.resume_block(arena, stmt, next);
                Request::Continue
            },
            Frame::Body { decl, next, caller } => {
                self.resume_body(arena, decl, next, caller);
                Request::Continue
            },
            Frame::Program { stmts, next } => self.resume_program(stmts, next),
            Frame::WhileBody(stmt) => {
                self.repeat(arena, stmt);
                Request::Continue
            },
            other => self.confuse(other),
        }
    }

    /// Goes on after a statement that has been executed: with the next
    /// statement of the block, the function or the program that it belongs
    /// to, or with the condition of its loop; after the last statement of a
    /// block its scope is closed, after that of a function the call is left
    /// with nil, and after that of the program the run has ended.
    pub(crate) fn continue_done(&mut self, arena: &AstArena) -> (r: Request)
        requires
            old(self).wf(),
        ensures
            final(self).keeps_scopes(old(self)),
            final(self).wf(),
            final(self).depths == old(self).depths,
            continued_done(old(self), final(self), arena, r),
            old(self).balanced() ==> final(self).balanced(),
    {
        match self.pop_frame() {
            None => self.finish(Outcome::Executed),
            Some(frame) => {
                let ghost mid = *self;
                proof {
                    assert(old(self).kont@ =~= mid.kont@.push(frame));
                }
                let r = self.resume_done(arena, frame);
                proof {
                    if expects_done(frame) {
                        assert(popped(old(self), &mid));
                    }
                    if old(self).balanced() {
                        lemma_done_balanced(old(self), &mid, self, arena, frame, r);
                    }
                }
                r
            },
        }
    }

    /// Leaves `frame`, which was popped from the continuation, behind on
    /// the way out of a function or out of the run.
    fn drop_frame(&mut self, frame: Frame) -> (caught: bool)
        requires
            old(self).wf(),
        ensures
            final(self).keeps_scopes(old(self)),
            final(self).wf(),
            final(self).depths == old(self).depths,
            final(self).kont == old(self).kont,
            final(self).control == old(self).control,
            final(self).parents() == old(self).parents(),
            dropped(old(self), final(self), frame),
            caught == (frame is Body),
    {
        match frame {
            Frame::Block { .. } => {
                self.leave_block();
                false
            },
            Frame::Body { caller, .. } => {
                self.leave_call(caller);
                true
            },
            _ => false,
        }
    }

    /// Leaves one frame behind on the way out of a function with the
    /// result `v`: a block closes its scope, the body of the function
    /// closes the scope of the call and hands `v` to the caller, and a
    /// `return` outside any function is an error.
    pub(crate) fn unwind_return(&mut self, v: Object) -> (r: Request)
        requires
            old(self).wf(),
        ensures
            final(self).keeps_scopes(old(self)),
            final(self).wf(),
            final(self).depths == old(self).depths,
            unwound_return(old(self), final(self), v, r),
            old(self).balanced() ==> final(self).balanced(),
    {
        match self.pop_frame() {
            None => self.finish(Outcome::Failed(RuntimeError::invalid_return(Span::default()))),
            Some(Frame::Program { .. }) => self.finish(
                Outcome::Failed(RuntimeError::invalid_return(Span::default())),
            ),
            Some(frame) => {
                let ghost mid = *self;
                proof {
                    assert(old(self).kont@ =~= mid.kont@.push(frame));
                }
                let caught = self.drop_frame(frame);
                if caught {
                    self.control = Control::Value(v);
                } else {
                    self.control = Control::Return(v);
                }
                proof {
                    assert(popped(old(self), &mid));
                    if old(self).balanced() {
                        lemma_drop_balanced(old(self), &mid, self, frame);
                    }
                }
                Request::Continue
            },
        }
    }

    /// Leaves one frame behind on the way out of the run with the error
    /// `e`: a block closes its scope, and the body of a function closes the
    /// scope of the call and goes back to the scope of the caller.
    pub(crate) fn unwind_error(&mut self, e: RuntimeError) -> (r: Request)
        requires
            old(self).wf(),
        ensures
            final(self).keeps_scopes(old(self)),
            final(self).wf(),
            final(self).depths == old(self).depths,
            unwound_error(old(self), final(self), e, r),
            old(self).balanced() ==> final(self).balanced(),
    {
        match self.pop_frame() {
            None => self.finish(Outcome::Failed(e)),
            Some(frame) => {
                let ghost mid = *self;
                proof {
                    assert(old(self).kont@ =~= mid.kont@.push(frame));
                }
                self.drop_frame(frame);
                self.control = Control::Raise(e);
                proof {
                    assert(popped(old(self), &mid));
                    if old(self).balanced() {
                        lemma_drop_balanced(old(self), &mid, self, frame);
                    }
                }
                Request::Continue
            },
        }
    }

    /// Makes one transition of the machine. A machine that has nothing to
    /// do says that the run has ended, and a machine that waits for a
    /// number says so and does nothing.
    pub fn step(&mut self, arena: &AstArena) -> (r: Request)
        requires
            old(self).wf(),
            arena.wf(),
        ensures
            final(self).keeps_scopes(old(self)),
            final(self).wf(),
            final(self).depths == old(self).depths,
            stepped(old(self), final(self), arena, r),
            old(self).balanced() ==> final(self).balanced(),
    {
        let mut control = Control::Idle;
        std::mem::swap(&mut control, &mut self.control);
        let ghost mid = *self;
        proof {
            assert(mid.parents() =~= old(self).parents());
        }
        let r = match control {
            Control::Idle => Request::Finished(Outcome::Executed),
            Control::Await => {
                self.control = Control::Await;
                Request::Waiting
            },
            Control::Expr(id) => self.begin_expr(arena, id),
            Control::Stmt(id) => {
                self.begin_stmt(arena, id);
                Request::Continue
            },
            Control::Value(v) => self.continue_value(arena, v),
            Control::Done => self.continue_done(arena),
            Control::Return(v) => self.unwind_return(v),
            Control::Raise(e) => self.unwind_error(e),
        };
        proof {
            assert(taken(old(self), &mid));
        }
        r
    }
}

/// Whether a frame waits for a statement to be done.
pub open spec fn expects_done(frame: Frame) -> bool {
    frame is WhileBody || frame is Block || frame is Body || frame is Program
}

/// What going on after a statement does to the machine, with `frame`,
/// which was popped from the machine `mid`.
pub open spec fn resumed_done(
    mid: &Interpreter,
    after: &Interpreter,
    arena: &AstArena,
    frame: Frame,
    r: Request,
) -> bool {
    match frame {
        Frame::Block { stmt, next } => r is Continue
            && resumed_block(mid, after, arena, stmt, next),
        Frame::Body { decl, next, caller } => r is Continue && resumed_body(
            mid,
            after,
            arena,
            decl,
            next,
            caller,
        ),
        Frame::Program { stmts, next } => resumed_program(mid, after, stmts, next, r),
        Frame::WhileBody(stmt) => r is Continue && repeated(mid, after, arena, stmt),
        _ => false,
    }
}

/// What going on after a statement does to the machine.
pub open spec fn continued_done(
    before: &Interpreter,
    after: &Interpreter,
    arena: &AstArena,
    r: Request,
) -> bool {
    if before.kont@.len() == 0 {
        scopes_kept(before, after) && after.kont@ == before.kont@ && after.control is Idle && r
            == Request::Finished(Outcome::Executed)
    } else if expects_done(before.kont@.last()) {
        exists|mid: Interpreter| #[trigger]
            popped(before, &mid) && resumed_done(&mid, after, arena, before.kont@.last(), r)
    } else {
        confused(before, after, r)
    }
}

/// Leaving `frame` behind has closed what it owed: the scope of a block,
/// or the scope of a call, with the scope of the caller current again.
pub open spec fn dropped(mid: &Interpreter, after: &Interpreter, frame: Frame) -> bool {
    match frame {
        Frame::Block { .. } => left_block(mid, after),
        Frame::Body { caller, .. } => left_call(mid, after, caller),
        _ => scopes_kept(mid, after),
    }
}

/// What leaving a frame behind with the result `v` of a function does to
/// the machine.
pub open spec fn unwound_return(
    before: &Interpreter,
    after: &Interpreter,
    v: Object,
    r: Request,
) -> bool {
    if before.kont@.len() == 0 || before.kont@.last() is Program {
        &&& scopes_kept(before, after)
        &&& after.control is Idle
        &&& after.kont@ == (if before.kont@.len() == 0 {
            before.kont@
        } else {
            before.kont@.drop_last()
        })
        &&& r matches Request::Finished(Outcome::Failed(e)) && e.span == Span::origin()
            && e.message@
            == "Invalid return statement."@
    } else {
        &&& r is Continue
        &&& after.control == (if before.kont@.last() is Body {
            Control::Value(v)
        } else {
            Control::Return(v)
        })
        &&& exists|mid: Interpreter| #[trigger]
            popped(before, &mid) && after.kont == mid.kont && dropped(
                &mid,
                after,
                before.kont@.last(),
            )
    }
}

/// What leaving a frame behind with the error `e` does to the machine.
pub open spec fn unwound_error(
    before: &Interpreter,
    after: &Interpreter,
    e: RuntimeError,
    r: Request,
) -> bool {
    if before.kont@.len() == 0 {
        scopes_kept(before, after) && after.control is Idle && after.kont@ == before.kont@ && r
            == Request::Finished(Outcome::Failed(e))
    } else {
        &&& r is Continue
        &&& after.control == Control::Raise(e)
        &&& exists|mid: Interpreter| #[trigger]
            popped(before, &mid) && after.kont == mid.kont && dropped(
                &mid,
                after,
                before.kont@.last(),
            )
    }
}

/// What one step does to the machine, by what it was about to do.
pub open spec fn stepped(
    before: &Interpreter,
    after: &Interpreter,
    arena: &AstArena,
    r: Request,
) -> bool {
    match before.control {
        Control::Idle => scopes_kept(before, after) && after.kont == before.kont
            && after.control is Idle && r == Request::Finished(Outcome::Executed),
        Control::Await => scopes_kept(before, after) && after.kont == before.kont
            && after.control is Await && r is Waiting,
        Control::Expr(id) => exists|mid: Interpreter| #[trigger]
            taken(before, &mid) && begins_expr(&mid, after, arena, id, r),
        Control::Stmt(id) => r is Continue && exists|mid: Interpreter| #[trigger]
            taken(before, &mid) && begins_stmt(&mid, after, arena, id),
        Control::Value(v) => exists|mid: Interpreter| #[trigger]
            taken(before, &mid) && continued_value(&mid, after, arena, v, r),
        Control::Done => exists|mid: Interpreter| #[trigger]
            taken(before, &mid) && continued_done(&mid, after, arena, r),
        Control::Return(v) => exists|mid: Interpreter| #[trigger]
            taken(before, &mid) && unwound_return(&mid, after, v, r),
        Control::Raise(e) => exists|mid: Interpreter| #[trigger]
            taken(before, &mid) && unwound_error(&mid, after, e, r),
    }
}

/// `mid` is `before` but for its control.
pub open spec fn taken(before: &Interpreter, mid: &Interpreter) -> bool {
    &&& mid.env == before.env
    &&& mid.depths == before.depths
    &&& mid.kont == before.kont
}

/// Going on after a statement keeps the scopes balanced.
proof fn lemma_done_balanced(
    before: &Interpreter,
    mid: &Interpreter,
    after: &Interpreter,
    arena: &AstArena,
    frame: Frame,
    r: Request,
)
    requires
        before.wf(),
        before.balanced(),
        mid.env == before.env,
        before.kont@ == mid.kont@.push(frame),
        after.parents() == mid.parents(),
        after.wf(),
        expects_done(frame) ==> resumed_done(mid, after, arena, frame, r),
        !expects_done(frame) ==> scopes_kept(mid, after) && after.kont@ == mid.kont@.push(frame),
    ensures
        after.balanced(),
{
    let parents = mid.parents();
    let current = mid.env.current();
    assert(before.kont@.drop_last() =~= mid.kont@);
    assert(before.parents() =~= parents);
    match frame {
        Frame::Block { stmt, next } => {
            match arena.get_block(stmt) {
                Some(statements) => {
                    if next < statements.len() && next < usize::MAX {
                        lemma_unwound_same_debt(
                            parents,
                            current,
                            mid.kont@,
                            frame,
                            Frame::Block { stmt, next: (next + 1) as usize },
                        );
                    }
                },
                None => {},
            }
        },
        Frame::Body { decl, next, caller } => {
            match arena.get_function(decl) {
                Some(f) => {
                    if next < f.body@.len() && next < usize::MAX {
                        lemma_unwound_same_debt(
                            parents,
                            current,
                            mid.kont@,
                            frame,
                            Frame::Body { decl, next: (next + 1) as usize, caller },
                        );
                    }
                },
                None => {},
            }
        },
        Frame::Program { stmts, next } => {
            lemma_unwound_push(parents, current, mid.kont@, frame);
            if next < stmts@.len() && next < usize::MAX {
                lemma_unwound_push(
                    parents,
                    current,
                    mid.kont@,
                    Frame::Program { stmts, next: (next + 1) as usize },
                );
            }
        },
        Frame::WhileBody(stmt) => {
            lemma_unwound_push(parents, current, mid.kont@, frame);
            lemma_unwound_push(parents, current, mid.kont@, Frame::WhileCondition(stmt));
        },
        _ => {},
    }
}

/// Leaving a frame behind keeps the scopes balanced.
proof fn lemma_drop_balanced(
    before: &Interpreter,
    mid: &Interpreter,
    after: &Interpreter,
    frame: Frame,
)
    requires
        before.wf(),
        before.balanced(),
        mid.env == before.env,
        before.kont@ == mid.kont@.push(frame),
        after.parents() == mid.parents(),
        after.kont == mid.kont,
        after.wf(),
        dropped(mid, after, frame),
    ensures
        after.balanced(),
{
    let parents = mid.parents();
    let current = mid.env.current();
    assert(before.kont@.drop_last() =~= mid.kont@);
    assert(before.parents() =~= parents);
    if !closes_scope(frame) {
        lemma_unwound_push(parents, current, mid.kont@, frame);
    }
}

/// `after` is reached from `before` by `n` steps, each of which asked for nothing.
pub open spec fn reached(
    before: &Interpreter,
    after: &Interpreter,
    arena: &AstArena,
    n: nat,
) -> bool
    decreases n,
{
    if n == 0 {
        *after == *before
    } else {
        exists|mid: Interpreter| #[trigger]
            stepped(before, &mid, arena, Request::Continue) && mid.wf() && reached(
                &mid,
                after,
                arena,
                (n - 1) as nat,
            )
    }
}

/// A machine that is reached in `n` steps, and steps once more, is reached
/// in `n + 1` steps.
pub proof fn lemma_reached_more(
    before: &Interpreter,
    last: &Interpreter,
    after: &Interpreter,
    arena: &AstArena,
    n: nat,
)
    requires
        reached(before, last, arena, n),
        stepped(last, after, arena, Request::Continue),
        after.wf(),
    ensures
        reached(before, after, arena, n + 1),
    decreases n,
{
    if n == 0 {
        assert(reached(after, after, arena, 0));
        assert(stepped(before, after, arena, Request::Continue));
    } else {
        let mid = choose|mid: Interpreter| #[trigger]
            stepped(before, &mid, arena, Request::Continue) && mid.wf() && reached(
                &mid,
                last,
                arena,
                (n - 1) as nat,
            );
        lemma_reached_more(&mid, last, after, arena, (n - 1) as nat);
        assert(stepped(before, &mid, arena, Request::Continue));
    }
}

/// What [`Interpreter::advance`] does: it makes steps that ask for
/// nothing, at most `limit` of them, and then either returns what the next
/// step asks for, or, if it has made `limit` steps, asks to be called again.
pub open spec fn advanced(
    before: &Interpreter,
    after: &Interpreter,
    arena: &AstArena,
    limit: u64,
    r: Request,
) -> bool {
    exists|n: nat, last: Interpreter| #[trigger]
        reached(before, &last, arena, n) && if r is Continue {
            n == limit && *after == last
        } else {
            n < limit && stepped(&last, after, arena, r)
        }
}

impl Interpreter {
    /// Steps the machine until a step asks something of the host or ends
    /// the run, but for no more than `limit` steps.
    pub fn advance(&mut self, arena: &AstArena, limit: u64) -> (r: Request)
        requires
            old(self).wf(),
            arena.wf(),
        ensures
            final(self).wf(),
            final(self).depths == old(self).depths,
            final(self).keeps_scopes(old(self)),
            advanced(old(self), final(self), arena, limit, r),
            old(self).balanced() ==> final(self).balanced(),
    {
        let mut made: u64 = 0;
        while made < limit
            invariant
                made <= limit,
                self.wf(),
                arena.wf(),
                self.depths == old(self).depths,
                self.keeps_scopes(old(self)),
                reached(old(self), self, arena, made as nat),
                old(self).balanced() ==> self.balanced(),
            decreases limit - made,
        {
            let ghost last = *self;
            let r = self.step(arena);
            match r {
                Request::Continue => {
                    proof {
                        lemma_reached_more(old(self), &last, self, arena, made as nat);
                    }
                    made = made + 1;
                },
                other => {
                    proof {
                        assert(reached(old(self), &last, arena, made as nat));
                    }
                    return other;
                },
            }
        }
        proof {
            assert(reached(old(self), self, arena, made as nat));
        }
        Request::Continue
    }
}

} // verus!
