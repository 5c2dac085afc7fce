//! The steps that begin the evaluation of an expression.

use crate::ast::AstArena;
use crate::ast::Expr;
use crate::ast::ExprId;
use crate::ast::Literal;
use crate::error::RuntimeError;
use crate::interpreter::closes_scope;
use crate::interpreter::unwound;
use crate::interpreter::Control;
use crate::interpreter::Frame;
use crate::interpreter::Interpreter;
use crate::interpreter::Request;
use crate::object::Object;
use crate::tokens::Token;
use vstd::prelude::*;

verus! {

/// The message of an error about a syntax tree that is not sound.
pub open spec fn broken_tree() -> Seq<char> {
    "Broken syntax tree."@
}

/// A frame that owes no scope adds nothing to what unwinding leads to.
pub proof fn lemma_unwound_push(
    parents: Seq<Option<crate::chain::SharedNode>>,
    current: crate::chain::SharedNode,
    kont: Seq<Frame>,
    frame: Frame,
)
    requires
        !closes_scope(frame),
    ensures
        unwound(parents, current, kont.push(frame)) == unwound(parents, current, kont),
{
    assert(kont.push(frame).drop_last() =~= kont);
}

/// The machine has done nothing but change its control and its frames.
pub open spec fn scopes_kept(before: &Interpreter, after: &Interpreter) -> bool {
    &&& after.env == before.env
    &&& after.depths == before.depths
}

/// The control is the error at `span` that says `message`.
pub open spec fn raises(control: Control, span: crate::span::Span, message: Seq<char>) -> bool {
    control matches Control::Raise(e) && e.span == span && e.message@ == message
}

/// What evaluating the literal `l` leads to: its value, or for a number a
/// request for the double that its digits stand for.
pub open spec fn literal_step(l: Literal, control: Control, r: Request) -> bool {
    match l {
        Literal::Nil => control == Control::Value(Object::Nil) && r is Continue,
        Literal::Boolean(b) => control == Control::Value(Object::Boolean(b)) && r is Continue,
        Literal::String(s) => control == Control::Value(Object::String(s)) && r is Continue,
        Literal::Number(digits) => control is Await && r == Request::ParseNumber(digits),
    }
}

/// A part of an expression and the frame that waits for its value.
pub struct Part {
    pub frame: Frame,
    pub expr: ExprId,
}

/// The frame that waits for the first part of the compound expression `id`,
/// and that part.
pub open spec fn first_part(e: Expr, id: ExprId) -> Option<Part> {
    match e {
        Expr::Unary(u) => Some(Part { frame: Frame::Unary(id), expr: u.right }),
        Expr::Binary(b) => Some(Part { frame: Frame::BinaryLeft(id), expr: b.left }),
        Expr::Logical(b) => Some(Part { frame: Frame::Logical(id), expr: b.left }),
        Expr::Assign(a) => Some(Part { frame: Frame::Assign(id), expr: a.value }),
        Expr::Call(c) => Some(Part { frame: Frame::Callee(id), expr: c.callee }),
        _ => None,
    }
}

impl Interpreter {
    /// The value of the variable `name` that the expression `id` uses: at
    /// the depth that the resolver noted for the expression, if it noted
    /// one, and else in the nearest scope that binds the name.
    pub open spec fn variable(&self, id: ExprId, name: Seq<char>) -> Option<Object> {
        if self.depths@.dom().contains(id.raw) {
            let depth = self.depths@[id.raw];
            if depth < self.env.scopes().len() && self.env.scope(
                self.env.scopes()[depth as int],
            ).dom().contains(name) {
                Some(self.env.scope(self.env.scopes()[depth as int])[name])
            } else {
                None
            }
        } else {
            self.env.lookup(self.env.scopes(), name)
        }
    }

    pub(crate) fn lookup(&self, id: ExprId, name: &Token) -> (v: Option<Object>)
        requires
            self.wf(),
        ensures
            v == self.variable(id, name@.text()),
    {
        let text = name.as_str();
        match self.depths.get(id) {
            Some(depth) => self.env.get_at(depth, text.as_str()),
            None => self.env.get(text.as_str()),
        }
    }

    /// Puts `frame`, which owes no scope, on the continuation and turns to
    /// the expression `next`.
    pub(crate) fn descend(&mut self, frame: Frame, next: ExprId)
        requires
            !closes_scope(frame),
        ensures
            final(self).keeps_scopes(old(self)),
            scopes_kept(old(self), final(self)),
            final(self).kont@ == old(self).kont@.push(frame),
            final(self).control == Control::Expr(next),
            old(self).balanced() ==> final(self).balanced(),
    {
        proof {
            lemma_unwound_push(self.parents(), self.env.current(), self.kont@, frame);
        }
        self.kont.push(frame);
        self.control = Control::Expr(next);
    }

    /// Gives up with the error at `span` that says `message`.
    pub(crate) fn raise(&mut self, span: crate::span::Span, message: &str)
        ensures
            final(self).keeps_scopes(old(self)),
            scopes_kept(old(self), final(self)),
            final(self).kont == old(self).kont,
            raises(final(self).control, span, message@),
    {
        self.control = Control::Raise(RuntimeError::custom(span, message));
    }

    fn eval_literal(&mut self, literal: &Literal) -> (r: Request)
        ensures
            final(self).keeps_scopes(old(self)),
            scopes_kept(old(self), final(self)),
            final(self).kont == old(self).kont,
            literal_step(*literal, final(self).control, r),
    {
        match literal {
            Literal::Nil => {
                self.control = Control::Value(Object::Nil);
                Request::Continue
            },
            Literal::Boolean(b) => {
                self.control = Control::Value(Object::Boolean(*b));
                Request::Continue
            },
            Literal::String(s) => {
                self.control = Control::Value(Object::String(s.clone()));
                Request::Continue
            },
            Literal::Number(digits) => {
                self.control = Control::Await;
                Request::ParseNumber(digits.clone())
            },
        }
    }

    fn eval_variable(&mut self, id: ExprId, name: &Token)
        requires
            old(self).wf(),
        ensures
            final(self).keeps_scopes(old(self)),
            scopes_kept(old(self), final(self)),
            final(self).kont == old(self).kont,
            match old(self).variable(id, name@.text()) {
                Some(v) => final(self).control == Control::Value(v),
                None => raises(final(self).control, name.span, "Undefined variable."@),
            },
    {
        match self.lookup(id, name) {
            Some(v) => {
                self.control = Control::Value(v);
            },
            None => {
                self.control = Control::Raise(RuntimeError::undefined(name.span));
            },
        }
    }

    /// Begins the evaluation of the expression `id`: a literal or a
    /// variable gives its value, a grouping turns to what it holds, and any
    /// other expression turns to its first part and leaves a frame that
    /// waits for the value of that part.
    pub(crate) fn begin_expr(&mut self, arena: &AstArena, id: ExprId) -> (r: Request)
        requires
            old(self).wf(),
        ensures
            final(self).keeps_scopes(old(self)),
            begins_expr(old(self), final(self), arena, id, r),
            old(self).balanced() ==> final(self).balanced(),
    {
        match arena.get_expr(id) {
            None => {
                self.raise(crate::span::Span::default(), "Broken syntax tree.");
                Request::Continue
            },
            Some(Expr::Literal(l)) => self.eval_literal(&l.literal),
            Some(Expr::Variable(v)) => {
                self.eval_variable(id, &v.name);
                Request::Continue
            },
            Some(Expr::Grouping(g)) => {
                self.control = Control::Expr(g.0);
                Request::Continue
            },
            Some(Expr::Unary(u)) => {
                self.descend(Frame::Unary(id), u.right);
                Request::Continue
            },
            Some(Expr::Binary(b)) => {
                self.descend(Frame::BinaryLeft(id), b.left);
                Request::Continue
            },
            Some(Expr::Logical(b)) => {
                self.descend(Frame::Logical(id), b.left);
                Request::Continue
            },
            Some(Expr::Assign(a)) => {
                self.descend(Frame::Assign(id), a.value);
                Request::Continue
            },
            Some(Expr::Call(c)) => {
                self.descend(Frame::Callee(id), c.callee);
                Request::Continue
            },
        }
    }
}

/// What beginning the expression `id` does to the machine.
pub open spec fn begins_expr(
    before: &Interpreter,
    after: &Interpreter,
    arena: &AstArena,
    id: ExprId,
    r: Request,
) -> bool {
    &&& scopes_kept(before, after)
    &&& if !arena.has_expr(id) {
        after.kont == before.kont && r is Continue && raises(
            after.control,
            crate::span::Span::origin(),
            broken_tree(),
        )
    } else {
        match arena.expr(id) {
            Expr::Literal(l) => after.kont == before.kont && literal_step(
                l.literal,
                after.control,
                r,
            ),
            Expr::Variable(v) => after.kont == before.kont && r is Continue
                && match before.variable(
                id,
                v.name@.text(),
            ) {
                Some(value) => after.control == Control::Value(value),
                None => raises(after.control, v.name.span, "Undefined variable."@),
            },
            Expr::Grouping(g) => after.kont == before.kont && r is Continue && after.control
                == Control::Expr(g.0),
            compound => r is Continue && after.kont@ == before.kont@.push(
                first_part(compound, id)->0.frame,
            ) && after.control == Control::Expr(first_part(compound, id)->0.expr),
        }
    }
}

} // verus!
