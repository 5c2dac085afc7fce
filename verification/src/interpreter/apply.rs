//! The steps that apply an operator to the values of its operands.

use crate::ast::AstArena;
use crate::ast::Expr;
use crate::ast::ExprId;
use crate::error::RuntimeError;
use crate::interpreter::evaluate::broken_tree;
use crate::interpreter::evaluate::raises;
use crate::interpreter::evaluate::scopes_kept;
use crate::interpreter::Control;
use crate::interpreter::Interpreter;
use crate::interpreter::Request;
use crate::object::arithmetic_of;
use crate::object::compared;
use crate::object::equal;
use crate::object::operand_message;
use crate::object::truthy;
use crate::object::ArithOp;
use crate::object::Arithmetic;
use crate::object::Comparison;
use crate::object::Number;
use crate::object::Object;
use crate::object::ObjectView;
use crate::object::OpError;
use crate::span::Span;
use crate::tokens::Token;
use crate::tokens::TokenKind;
use vstd::prelude::*;

verus! {

/// What an operator makes of its operands.
pub enum Applied {
    /// A value.
    Value(ObjectView),
    /// A question to the host: `op` on two numbers.
    Ask { op: ArithOp, left: Number, right: Number },
    /// An error, with its message.
    Error(Seq<char>),
}

/// What the unary operator of kind `op` makes of `v`: `-` negates a number
/// and nothing else, `!` negates the truth of any value.
pub open spec fn unary_result(op: TokenKind, v: ObjectView) -> Applied {
    match op {
        TokenKind::Minus => match v {
            ObjectView::Number(n) => Applied::Value(ObjectView::Number(n.flipped())),
            ObjectView::Nil => Applied::Error("Invalid operand: "@ + "Object is nil"@),
            _ => Applied::Error("Invalid operand: "@ + "Object is not of type Number"@),
        },
        TokenKind::Bang => Applied::Value(ObjectView::Boolean(!truthy(v))),
        _ => Applied::Error(broken_tree()),
    }
}

/// The arithmetic operation that a token kind stands for.
pub open spec fn arith_kind(op: TokenKind) -> Option<ArithOp> {
    match op {
        TokenKind::Plus => Some(ArithOp::Add),
        TokenKind::Minus => Some(ArithOp::Sub),
        TokenKind::Star => Some(ArithOp::Mul),
        TokenKind::Slash => Some(ArithOp::Div),
        _ => None,
    }
}

/// The comparison that a token kind stands for.
pub open spec fn comparison_kind(op: TokenKind) -> Option<Comparison> {
    match op {
        TokenKind::Less => Some(Comparison::Less),
        TokenKind::LessEqual => Some(Comparison::LessEqual),
        TokenKind::Greater => Some(Comparison::Greater),
        TokenKind::GreaterEqual => Some(Comparison::GreaterEqual),
        _ => None,
    }
}

/// What the binary operator of kind `op` makes of `a` and `b`. Arithmetic
/// on two numbers is a question to the host, `+` joins two strings, and
/// arithmetic on anything else is an error. A comparison is `false` unless
/// both operands are numbers. Equality is defined on all values.
pub open spec fn binary_result(op: TokenKind, a: ObjectView, b: ObjectView) -> Applied {
    if arith_kind(op) is Some {
        let how = arith_kind(op)->0;
        match arithmetic_of(how, a, b) {
            Some(Ok(v)) => Applied::Value(v),
            Some(Err(operands)) => Applied::Ask { op: how, left: operands.0, right: operands.1 },
            None => Applied::Error("Invalid operand: "@ + operand_message(how, a, b)),
        }
    } else if comparison_kind(op) is Some {
        Applied::Value(ObjectView::Boolean(compared(comparison_kind(op)->0, a, b)))
    } else if op == TokenKind::EqualEqual {
        Applied::Value(ObjectView::Boolean(equal(a, b)))
    } else if op == TokenKind::BangEqual {
        Applied::Value(ObjectView::Boolean(!equal(a, b)))
    } else {
        Applied::Error(broken_tree())
    }
}

/// The machine has turned to what `applied` says, for an operator at `span`.
pub open spec fn turned_to(control: Control, r: Request, span: Span, applied: Applied) -> bool {
    match applied {
        Applied::Value(v) => (control matches Control::Value(o) && o@ == v) && r is Continue,
        Applied::Ask { op, left, right } => control is Await && r == (Request::Arith {
            op,
            left,
            right,
        }),
        Applied::Error(message) => raises(control, span, message) && r is Continue,
    }
}

/// Whether the left operand of a logical operator decides the result: a
/// true one under `or`, a false one under `and`.
pub open spec fn decides(op: TokenKind, v: ObjectView) -> bool {
    (op == TokenKind::Or && truthy(v)) || (op == TokenKind::And && !truthy(v))
}

fn arith_of_kind(op: TokenKind) -> (how: Option<ArithOp>)
    ensures
        how == arith_kind(op),
{
    match op {
        TokenKind::Plus => Some(ArithOp::Add),
        TokenKind::Minus => Some(ArithOp::Sub),
        TokenKind::Star => Some(ArithOp::Mul),
        TokenKind::Slash => Some(ArithOp::Div),
        _ => None,
    }
}

fn comparison_of_kind(op: TokenKind) -> (how: Option<Comparison>)
    ensures
        how == comparison_kind(op),
{
    match op {
        TokenKind::Less => Some(Comparison::Less),
        TokenKind::LessEqual => Some(Comparison::LessEqual),
        TokenKind::Greater => Some(Comparison::Greater),
        TokenKind::GreaterEqual => Some(Comparison::GreaterEqual),
        _ => None,
    }
}

/// What [`Interpreter::apply_unary`] does to the machine.
pub open spec fn applied_unary(
    before: &Interpreter,
    after: &Interpreter,
    arena: &AstArena,
    id: ExprId,
    v: Object,
) -> bool {
    &&& scopes_kept(before, after)
    &&& after.kont == before.kont
    &&& match arena.get_unary(id) {
        Some(u) => turned_to(
            after.control,
            Request::Continue,
            u.op.span,
            unary_result(u.op@.kind, v@),
        ),
        None => raises(after.control, Span::origin(), broken_tree()),
    }
}

/// What [`Interpreter::apply_binary`] does to the machine.
pub open spec fn applied_binary(
    before: &Interpreter,
    after: &Interpreter,
    arena: &AstArena,
    id: ExprId,
    a: Object,
    b: Object,
    r: Request,
) -> bool {
    &&& scopes_kept(before, after)
    &&& after.kont == before.kont
    &&& match arena.get_binary(id) {
        Some(e) => turned_to(
            after.control,
            r,
            e.op.span,
            binary_result(e.op@.kind, a@, b@),
        ),
        None => raises(after.control, Span::origin(), broken_tree()) && r is Continue,
    }
}

/// What [`Interpreter::apply_logical`] does to the machine.
pub open spec fn applied_logical(
    before: &Interpreter,
    after: &Interpreter,
    arena: &AstArena,
    id: ExprId,
    v: Object,
) -> bool {
    &&& scopes_kept(before, after)
    &&& after.kont == before.kont
    &&& match arena.get_logical(id) {
        Some(e) => if decides(e.op@.kind, v@) {
            after.control == Control::Value(v)
        } else if e.op@.kind == TokenKind::Or || e.op@.kind == TokenKind::And {
            after.control == Control::Expr(e.right)
        } else {
            raises(after.control, e.op.span, broken_tree())
        },
        None => raises(after.control, Span::origin(), broken_tree()),
    }
}

impl Interpreter {
    /// Turns to the value `value`.
    pub(crate) fn give(&mut self, value: Object)
        ensures
            final(self).keeps_scopes(old(self)),
            scopes_kept(old(self), final(self)),
            final(self).kont == old(self).kont,
            final(self).control == Control::Value(value),
    {
        self.control = Control::Value(value);
    }

    /// Gives up with the error of an operator at `span`.
    fn raise_operand(&mut self, span: Span, error: OpError)
        ensures
            final(self).keeps_scopes(old(self)),
            scopes_kept(old(self), final(self)),
            final(self).kont == old(self).kont,
            raises(final(self).control, span, error.text()),
    {
        let message = error.to_string();
        self.control = Control::Raise(RuntimeError::with_token(span, message.as_str()));
    }

    /// Applies the unary operator `op` to `v`.
    fn unary(&mut self, op: &Token, v: Object)
        ensures
            final(self).keeps_scopes(old(self)),
            scopes_kept(old(self), final(self)),
            final(self).kont == old(self).kont,
            turned_to(
                final(self).control,
                Request::Continue,
                op.span,
                unary_result(op@.kind, v@),
            ),
    {
        match op.ty.kind() {
            TokenKind::Minus => match v.neg() {
                Ok(negated) => self.give(negated),
                Err(e) => self.raise_operand(op.span, e),
            },
            TokenKind::Bang => self.give(v.not()),
            _ => self.raise(op.span, "Broken syntax tree."),
        }
    }

    /// Applies the operator of the unary expression `id` to `v`.
    pub(crate) fn apply_unary(&mut self, arena: &AstArena, id: ExprId, v: Object)
        ensures
            final(self).keeps_scopes(old(self)),
            applied_unary(old(self), final(self), arena, id, v),
    {
        match arena.get_expr(id) {
            Some(Expr::Unary(u)) => self.unary(&u.op, v),
            _ => self.raise(Span::default(), "Broken syntax tree."),
        }
    }

    /// Applies the binary operator `op` to `a` and `b`.
    fn binary(&mut self, op: &Token, a: Object, b: Object) -> (r: Request)
        ensures
            final(self).keeps_scopes(old(self)),
            scopes_kept(old(self), final(self)),
            final(self).kont == old(self).kont,
            turned_to(final(self).control, r, op.span, binary_result(op@.kind, a@, b@)),
    {
        let kind = op.ty.kind();
        match arith_of_kind(kind) {
            Some(how) => {
                match a.arithmetic(how, &b) {
                    Ok(Arithmetic::Done(v)) => {
                        self.give(v);
                        Request::Continue
                    },
                    Ok(Arithmetic::Ask { op: asked, left, right }) => {
                        self.control = Control::Await;
                        Request::Arith { op: asked, left, right }
                    },
                    Err(e) => {
                        self.raise_operand(op.span, e);
                        Request::Continue
                    },
                }
            },
            None => {
                match comparison_of_kind(kind) {
                    Some(how) => self.give(Object::Boolean(a.compare(how, &b))),
                    None => match kind {
                        TokenKind::EqualEqual => self.give(Object::Boolean(a.equals(&b))),
                        TokenKind::BangEqual => self.give(Object::Boolean(!a.equals(&b))),
                        _ => self.raise(op.span, "Broken syntax tree."),
                    },
                }
                Request::Continue
            },
        }
    }

    /// Applies the operator of the binary expression `id` to `a` and `b`.
    pub(crate) fn apply_binary(&mut self, arena: &AstArena, id: ExprId, a: Object, b: Object) -> (r:
        Request)
        ensures
            final(self).keeps_scopes(old(self)),
            applied_binary(old(self), final(self), arena, id, a, b, r),
    {
        match arena.get_expr(id) {
            Some(Expr::Binary(e)) => self.binary(&e.op, a, b),
            _ => {
                self.raise(Span::default(), "Broken syntax tree.");
                Request::Continue
            },
        }
    }

    /// Looks at the left operand `v` of the logical expression `id`: if it
    /// decides, it is the value of the expression, and the right operand is
    /// not evaluated; else the machine turns to the right operand.
    pub(crate) fn apply_logical(&mut self, arena: &AstArena, id: ExprId, v: Object)
        ensures
            final(self).keeps_scopes(old(self)),
            applied_logical(old(self), final(self), arena, id, v),
    {
        match arena.get_expr(id) {
            Some(Expr::Logical(e)) => {
                let truth = v.is_truthy();
                match e.op.ty.kind() {
                    TokenKind::Or => if truth {
                        self.give(v)
                    } else {
                        self.control = Control::Expr(e.right);
                    },
                    TokenKind::And => if truth {
                        self.control = Control::Expr(e.right);
                    } else {
                        self.give(v)
                    },
                    _ => self.raise(e.op.span, "Broken syntax tree."),
                }
            },
            _ => self.raise(Span::default(), "Broken syntax tree."),
        }
    }
}

impl AstArena {
    /// The unary expression that `id` names, if it names one.
    pub open spec fn get_unary(&self, id: ExprId) -> Option<crate::ast::ExprUnary> {
        if self.has_expr(id) && self.expr(id) is Unary {
            Some(self.expr(id)->Unary_0)
        } else {
            None
        }
    }

    /// The binary expression that `id` names, if it names one.
    pub open spec fn get_binary(&self, id: ExprId) -> Option<crate::ast::ExprBinary> {
        if self.has_expr(id) && self.expr(id) is Binary {
            Some(self.expr(id)->Binary_0)
        } else {
            None
        }
    }

    /// The logical expression that `id` names, if it names one.
    pub open spec fn get_logical(&self, id: ExprId) -> Option<crate::ast::ExprLogical> {
        if self.has_expr(id) && self.expr(id) is Logical {
            Some(self.expr(id)->Logical_0)
        } else {
            None
        }
    }

    /// The assignment that `id` names, if it names one.
    pub open spec fn get_assign(&self, id: ExprId) -> Option<crate::ast::ExprAssign> {
        if self.has_expr(id) && self.expr(id) is Assign {
            Some(self.expr(id)->Assign_0)
        } else {
            None
        }
    }

    /// The call that `id` names, if it names one.
    pub open spec fn get_call(&self, id: ExprId) -> Option<crate::ast::ExprCall> {
        if self.has_expr(id) && self.expr(id) is Call {
            Some(self.expr(id)->Call_0)
        } else {
            None
        }
    }
}

/// Where the left operand of a logical expression decides, the value of
/// the expression is that operand, and the machine has not turned to the
/// right operand: its continuation and its scopes are as they were.
pub proof fn lemma_short_circuit(
    before: &Interpreter,
    after: &Interpreter,
    arena: &AstArena,
    id: ExprId,
    v: Object,
)
    requires
        applied_logical(before, after, arena, id, v),
        arena.get_logical(id) is Some,
        decides(arena.get_logical(id)->0.op@.kind, v@),
    ensures
        after.control == Control::Value(v),
        after.control != Control::Expr(arena.get_logical(id)->0.right),
        after.kont == before.kont,
        after.env == before.env,
{
}

/// Where the left operand of `and` or `or` does not decide, the machine
/// turns to the right operand, whose value is then the value of the
/// expression: nothing waits for it but what waited for the expression.
pub proof fn lemma_long_circuit(
    before: &Interpreter,
    after: &Interpreter,
    arena: &AstArena,
    id: ExprId,
    v: Object,
)
    requires
        applied_logical(before, after, arena, id, v),
        arena.get_logical(id) is Some,
        !decides(arena.get_logical(id)->0.op@.kind, v@),
        arena.get_logical(id)->0.op@.kind == TokenKind::Or || arena.get_logical(id)->0.op@.kind
            == TokenKind::And,
    ensures
        after.control == Control::Expr(arena.get_logical(id)->0.right),
        after.kont == before.kont,
        after.env == before.env,
{
}

} // verus!
