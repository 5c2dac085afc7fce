//! Handles to expressions, their spans, and their prefix notation.

use crate::ast::lemma_expr_parts;
use crate::ast::AstArena;
use crate::ast::Expr;
use crate::ast::ExprCall;
use crate::ast::ExprId;
use crate::ast::ExprTree;
use crate::ast::StmtId;
use crate::span::Span;
use crate::text::push_str;
use crate::tokens::Token;
use vstd::prelude::*;

verus! {

/// The part of the source that an expression covers.
pub open spec fn tree_span(t: ExprTree) -> Span
    decreases t,
{
    match t {
        ExprTree::Binary(_, left, right) => tree_span(*left).joined(tree_span(*right)),
        ExprTree::Logical(_, left, right) => tree_span(*left).joined(tree_span(*right)),
        ExprTree::Call(callee, r_paren, _) => tree_span(*callee).joined(r_paren.span),
        ExprTree::Grouping(inner) => tree_span(*inner),
        ExprTree::Literal(token, _) => token.span,
        ExprTree::Unary(op, right) => op.span.joined(tree_span(*right)),
        ExprTree::Variable(name) => name.span,
        ExprTree::Assign(name, value) => name.span.joined(tree_span(*value)),
        ExprTree::Missing => Span::origin(),
    }
}

/// The texts of `items` from `from` on, with `", "` between each two.
pub open spec fn comma_separated(items: Seq<Seq<char>>, from: int) -> Seq<char>
    decreases items.len() - from,
{
    if from < 0 || from >= items.len() {
        Seq::empty()
    } else if from == items.len() - 1 {
        items[from]
    } else {
        items[from] + ", "@ + comma_separated(items, from + 1)
    }
}

/// An expression in prefix notation: an operator before its operands, all
/// between parentheses; a call as `(call f a, b)`; a grouping as `(group e)`.
pub open spec fn polish(t: ExprTree) -> Seq<char>
    decreases t,
{
    match t {
        ExprTree::Binary(op, left, right) => "("@ + op.text() + " "@ + polish(*left) + " "@
            + polish(
            *right,
        ) + ")"@,
        ExprTree::Logical(op, left, right) => "("@ + op.text() + " "@ + polish(*left) + " "@
            + polish(*right) + ")"@,
        ExprTree::Call(callee, _, args) => "(call "@ + polish(*callee) + (if args.len() > 0 {
            " "@
        } else {
            Seq::empty()
        }) + comma_separated(polish_all(args), 0) + ")"@,
        ExprTree::Grouping(inner) => "(group "@ + polish(*inner) + ")"@,
        ExprTree::Literal(token, _) => token.text(),
        ExprTree::Unary(op, right) => "("@ + op.text() + " "@ + polish(*right) + ")"@,
        ExprTree::Variable(name) => name.text(),
        ExprTree::Assign(name, value) => "(= "@ + name.text() + polish(*value) + ")"@,
        ExprTree::Missing => Seq::empty(),
    }
}

/// An expression as it is written in source: operators between their
/// operands, a call as `f(a, b)`, a grouping between parentheses.
pub open spec fn infix(t: ExprTree) -> Seq<char>
    decreases t,
{
    match t {
        ExprTree::Binary(op, left, right) => infix(*left) + " "@ + op.text() + " "@ + infix(*right),
        ExprTree::Logical(op, left, right) => infix(*left) + " "@ + op.text() + " "@
            + infix(*right),
        ExprTree::Call(callee, _, args) => infix(*callee) + "("@ + comma_separated(
            infix_all(args),
            0,
        ) + ")"@,
        ExprTree::Grouping(inner) => "("@ + infix(*inner) + ")"@,
        ExprTree::Literal(token, _) => token.text(),
        ExprTree::Unary(op, right) => op.text() + infix(*right),
        ExprTree::Variable(name) => name.text(),
        ExprTree::Assign(name, value) => name.text() + " = "@ + infix(*value),
        ExprTree::Missing => Seq::empty(),
    }
}

/// Each of `trees` as it is written in source.
pub open spec fn infix_all(trees: Seq<ExprTree>) -> Seq<Seq<char>>
    decreases trees,
{
    Seq::new(
        trees.len(),
        |i: int|
            if 0 <= i < trees.len() {
                infix(trees[i])
            } else {
                Seq::empty()
            },
    )
}

/// The prefix notation of each of `trees`.
pub open spec fn polish_all(trees: Seq<ExprTree>) -> Seq<Seq<char>>
    decreases trees,
{
    Seq::new(
        trees.len(),
        |i: int|
            if 0 <= i < trees.len() {
                polish(trees[i])
            } else {
                Seq::empty()
            },
    )
}

/// A handle to an expression of an arena.
#[derive(Clone, Copy)]
pub struct ExprRef<'a> {
    pub arena: &'a AstArena,
    pub id: ExprId,
}

/// A handle to a statement of an arena.
#[derive(Clone, Copy)]
pub struct StmtRef<'a> {
    pub arena: &'a AstArena,
    pub id: StmtId,
}

impl AstArena {
    /// A handle to the expression `id`.
    pub fn expr_ref(&self, id: ExprId) -> (r: ExprRef<'_>)
        ensures
            r.arena == self,
            r.id == id,
    {
        ExprRef { arena: self, id }
    }

    /// A handle to the statement `id`.
    pub fn stmt_ref(&self, id: StmtId) -> (r: StmtRef<'_>)
        ensures
            r.arena == self,
            r.id == id,
    {
        StmtRef { arena: self, id }
    }

    /// The span of the expression `id`.
    pub fn expr_span(&self, id: ExprId) -> (s: Span)
        requires
            self.wf(),
            self.has_expr(id),
        ensures
            s == tree_span(self.expr_tree(id)),
        decreases self.rank(id.raw),
    {
        proof {
            lemma_expr_parts(self, id);
        }
        let ghost e = self.expr(id);
        match self.get_expr(id) {
            Some(Expr::Binary(b)) => {
                assert(e.children()[0] == b.left && e.children()[1] == b.right);
                self.expr_span(b.left).join(&self.expr_span(b.right))
            },
            Some(Expr::Logical(b)) => {
                assert(e.children()[0] == b.left && e.children()[1] == b.right);
                self.expr_span(b.left).join(&self.expr_span(b.right))
            },
            Some(Expr::Call(c)) => {
                assert(e.children()[0] == c.callee);
                self.expr_span(c.callee).join(&c.r_paren.span)
            },
            Some(Expr::Grouping(g)) => {
                assert(e.children()[0] == g.0);
                self.expr_span(g.0)
            },
            Some(Expr::Literal(l)) => l.token.span,
            Some(Expr::Unary(u)) => {
                assert(e.children()[0] == u.right);
                u.op.span.join(&self.expr_span(u.right))
            },
            Some(Expr::Variable(v)) => v.name.span,
            Some(Expr::Assign(a)) => {
                assert(e.children()[0] == a.value);
                a.name.span.join(&self.expr_span(a.value))
            },
            None => Span::default(),
        }
    }

    /// Appends `(op left right)` to `out`.
    fn write_operator(&self, limit: ExprId, op: &Token, left: ExprId, right: ExprId, out: &mut String)
        requires
            self.wf(),
            self.has_expr(left),
            self.has_expr(right),
            self.rank(left.raw) < self.rank(limit.raw),
            self.rank(right.raw) < self.rank(limit.raw),
        ensures
            final(out)@ == old(out)@ + ("("@ + op@.text() + " "@ + polish(self.expr_tree(left))
                + " "@
                + polish(self.expr_tree(right)) + ")"@),
        decreases self.rank(limit.raw), 0int,
    {
        push_str(out, "(");
        push_str(out, op.as_str().as_str());
        push_str(out, " ");
        self.write_polish(left, out);
        push_str(out, " ");
        self.write_polish(right, out);
        push_str(out, ")");
        assert(out@ =~= old(out)@ + ("("@ + op@.text() + " "@ + polish(self.expr_tree(left)) + " "@
            + polish(self.expr_tree(right)) + ")"@));
    }

    /// Appends the expressions `args` to `out`, with `", "` between each two.
    fn write_args(&self, limit: ExprId, args: &Vec<ExprId>, out: &mut String)
        requires
            self.wf(),
            forall|i: int|
                0 <= i < args@.len() ==> self.has_expr(#[trigger] args@[i]) && self.rank(
                    args@[i].raw,
                ) < self.rank(limit.raw),
        ensures
            final(out)@ == old(out)@ + comma_separated(self.polish_each(args@), 0),
        decreases self.rank(limit.raw), 0int,
    {
        let ghost texts = self.polish_each(args@);
        let n = args.len();
        let mut i: usize = 0;
        assert(old(out)@ + comma_separated(texts, 0) =~= out@ + comma_separated(texts, 0));
        while i < n
            invariant
                i <= n,
                n == args@.len(),
                self.wf(),
                texts == self.polish_each(args@),
                forall|i: int|
                    0 <= i < args@.len() ==> self.has_expr(#[trigger] args@[i]) && self.rank(
                        args@[i].raw,
                    ) < self.rank(limit.raw),
                out@ + comma_separated(texts, i as int) == old(out)@ + comma_separated(texts, 0),
            decreases n - i,
        {
            let ghost before = out@;
            self.write_polish(args[i], out);
            if i + 1 < n {
                push_str(out, ", ");
            }
            proof {
                assert(before + comma_separated(texts, i as int) =~= out@ + comma_separated(
                    texts,
                    i + 1,
                ));
            }
            i += 1;
        }
        assert(out@ + comma_separated(texts, n as int) =~= out@);
    }

    /// Appends the call `id` to `out`.
    fn write_call(&self, id: ExprId, c: &ExprCall, out: &mut String)
        requires
            self.wf(),
            self.has_expr(id),
            self.expr(id) == Expr::Call(*c),
        ensures
            final(out)@ == old(out)@ + polish(self.expr_tree(id)),
        decreases self.rank(id.raw), 1int,
    {
        proof {
            lemma_expr_parts(self, id);
        }
        let ghost e = self.expr(id);
        assert(e.children()[0] == c.callee);
        assert forall|i: int| 0 <= i < c.args@.len() implies self.has_expr(#[trigger] c.args@[i])
            && self.rank(c.args@[i].raw) < self.rank(id.raw) by {
            assert(e.children()[i + 1] == c.args@[i]);
        }
        push_str(out, "(call ");
        self.write_polish(c.callee, out);
        if c.args.len() > 0 {
            push_str(out, " ");
        }
        self.write_args(id, &c.args, out);
        push_str(out, ")");
        proof {
            let t = self.expr_tree(id);
            assert(polish_all(t->Call_2) =~= self.polish_each(c.args@));
            assert(polish(t) == "(call "@ + polish(self.expr_tree(c.callee))
                + (if c.args@.len() > 0 {
                " "@
            } else {
                Seq::empty()
            }) + comma_separated(self.polish_each(c.args@), 0) + ")"@);
            assert(out@ =~= old(out)@ + polish(t));
        }
    }

    /// Appends `open`, the name of `token` if there is one, a space if `gap`
    /// is set, the expression `inner`, and a closing parenthesis to `out`.
    fn write_wrapped(
        &self,
        limit: ExprId,
        open: &str,
        token: Option<&Token>,
        gap: bool,
        inner: ExprId,
        out: &mut String,
    )
        requires
            self.wf(),
            self.has_expr(inner),
            self.rank(inner.raw) < self.rank(limit.raw),
        ensures
            final(out)@ == old(out)@ + (open@ + (match token {
                Some(t) => t@.text(),
                None => Seq::empty(),
            }) + (if gap {
                " "@
            } else {
                Seq::empty()
            }) + polish(self.expr_tree(inner)) + ")"@),
        decreases self.rank(limit.raw), 0int,
    {
        push_str(out, open);
        match token {
            Some(t) => {
                push_str(out, t.as_str().as_str());
            },
            None => {},
        }
        if gap {
            push_str(out, " ");
        }
        self.write_polish(inner, out);
        push_str(out, ")");
        assert(out@ =~= old(out)@ + (open@ + (match token {
            Some(t) => t@.text(),
            None => Seq::empty(),
        }) + (if gap {
            " "@
        } else {
            Seq::empty()
        }) + polish(self.expr_tree(inner)) + ")"@));
    }

    /// Appends the expression `id` in prefix notation to `out`.
    pub fn write_polish(&self, id: ExprId, out: &mut String)
        requires
            self.wf(),
            self.has_expr(id),
        ensures
            final(out)@ == old(out)@ + polish(self.expr_tree(id)),
        decreases self.rank(id.raw), 2int,
    {
        proof {
            lemma_expr_parts(self, id);
        }
        let ghost e = self.expr(id);
        match self.get_expr(id) {
            Some(Expr::Binary(b)) => {
                assert(e.children()[0] == b.left && e.children()[1] == b.right);
                self.write_operator(id, &b.op, b.left, b.right, out);
            },
            Some(Expr::Logical(b)) => {
                assert(e.children()[0] == b.left && e.children()[1] == b.right);
                self.write_operator(id, &b.op, b.left, b.right, out);
            },
            Some(Expr::Call(c)) => {
                self.write_call(id, c, out);
            },
            Some(Expr::Grouping(g)) => {
                assert(e.children()[0] == g.0);
                self.write_wrapped(id, "(group ", None, false, g.0, out);
                assert("(group "@ + Seq::<char>::empty() + Seq::<char>::empty() =~= "(group "@);
            },
            Some(Expr::Literal(l)) => {
                push_str(out, l.token.as_str().as_str());
            },
            Some(Expr::Unary(u)) => {
                assert(e.children()[0] == u.right);
                self.write_wrapped(id, "(", Some(&u.op), true, u.right, out);
            },
            Some(Expr::Variable(v)) => {
                push_str(out, v.name.as_str().as_str());
            },
            Some(Expr::Assign(a)) => {
                assert(e.children()[0] == a.value);
                self.write_wrapped(id, "(= ", Some(&a.name), false, a.value, out);
                assert("(= "@ + a.name@.text() + Seq::<char>::empty() =~= "(= "@ + a.name@.text());
            },
            None => {},
        }
    }

    /// Each of the expressions `ids` as it is written in source.
    pub open spec fn infix_each(&self, ids: Seq<ExprId>) -> Seq<Seq<char>> {
        Seq::new(ids.len(), |i: int| infix(self.expr_tree(ids[i])))
    }

    /// Appends `left op right` to `out`.
    fn write_between(&self, limit: ExprId, op: &Token, left: ExprId, right: ExprId, out: &mut String)
        requires
            self.wf(),
            self.has_expr(left),
            self.has_expr(right),
            self.rank(left.raw) < self.rank(limit.raw),
            self.rank(right.raw) < self.rank(limit.raw),
        ensures
            final(out)@ == old(out)@ + (infix(self.expr_tree(left)) + " "@ + op@.text() + " "@
                + infix(
                self.expr_tree(right),
            )),
        decreases self.rank(limit.raw), 0int,
    {
        self.write_infix(left, out);
        push_str(out, " ");
        push_str(out, op.as_str().as_str());
        push_str(out, " ");
        self.write_infix(right, out);
        assert(out@ =~= old(out)@ + (infix(self.expr_tree(left)) + " "@ + op@.text() + " "@ + infix(
            self.expr_tree(right),
        )));
    }

    /// Appends the expressions `args`, as they are written in source, to
    /// `out`, with `", "` between each two.
    fn write_infix_args(&self, limit: ExprId, args: &Vec<ExprId>, out: &mut String)
        requires
            self.wf(),
            forall|i: int|
                0 <= i < args@.len() ==> self.has_expr(#[trigger] args@[i]) && self.rank(
                    args@[i].raw,
                ) < self.rank(limit.raw),
        ensures
            final(out)@ == old(out)@ + comma_separated(self.infix_each(args@), 0),
        decreases self.rank(limit.raw), 0int,
    {
        let ghost texts = self.infix_each(args@);
        let n = args.len();
        let mut i: usize = 0;
        assert(old(out)@ + comma_separated(texts, 0) =~= out@ + comma_separated(texts, 0));
        while i < n
            invariant
                i <= n,
                n == args@.len(),
                self.wf(),
                texts == self.infix_each(args@),
                forall|i: int|
                    0 <= i < args@.len() ==> self.has_expr(#[trigger] args@[i]) && self.rank(
                        args@[i].raw,
                    ) < self.rank(limit.raw),
                out@ + comma_separated(texts, i as int) == old(out)@ + comma_separated(texts, 0),
            decreases n - i,
        {
            let ghost before = out@;
            self.write_infix(args[i], out);
            if i + 1 < n {
                push_str(out, ", ");
            }
            proof {
                assert(before + comma_separated(texts, i as int) =~= out@ + comma_separated(
                    texts,
                    i + 1,
                ));
            }
            i += 1;
        }
        assert(out@ + comma_separated(texts, n as int) =~= out@);
    }

    /// Appends the call `id`, as it is written in source, to `out`.
    fn write_infix_call(&self, id: ExprId, c: &ExprCall, out: &mut String)
        requires
            self.wf(),
            self.has_expr(id),
            self.expr(id) == Expr::Call(*c),
        ensures
            final(out)@ == old(out)@ + infix(self.expr_tree(id)),
        decreases self.rank(id.raw), 1int,
    {
        proof {
            lemma_expr_parts(self, id);
        }
        let ghost e = self.expr(id);
        assert(e.children()[0] == c.callee);
        assert forall|i: int| 0 <= i < c.args@.len() implies self.has_expr(#[trigger] c.args@[i])
            && self.rank(c.args@[i].raw) < self.rank(id.raw) by {
            assert(e.children()[i + 1] == c.args@[i]);
        }
        self.write_infix(c.callee, out);
        push_str(out, "(");
        self.write_infix_args(id, &c.args, out);
        push_str(out, ")");
        proof {
            let t = self.expr_tree(id);
            assert(infix_all(t->Call_2) =~= self.infix_each(c.args@));
            assert(infix(t) == infix(self.expr_tree(c.callee)) + "("@ + comma_separated(
                self.infix_each(c.args@),
                0,
            ) + ")"@);
            assert(out@ =~= old(out)@ + infix(t));
        }
    }

    /// Appends `before`, the expression `inner` as it is written in source,
    /// and `after` to `out`.
    fn write_around(&self, limit: ExprId, before: &str, inner: ExprId, after: &str, out: &mut String)
        requires
            self.wf(),
            self.has_expr(inner),
            self.rank(inner.raw) < self.rank(limit.raw),
        ensures
            final(out)@ == old(out)@ + (before@ + infix(self.expr_tree(inner)) + after@),
        decreases self.rank(limit.raw), 0int,
    {
        push_str(out, before);
        self.write_infix(inner, out);
        push_str(out, after);
        assert(out@ =~= old(out)@ + (before@ + infix(self.expr_tree(inner)) + after@));
    }

    /// Appends the expression `id`, as it is written in source, to `out`.
    pub fn write_infix(&self, id: ExprId, out: &mut String)
        requires
            self.wf(),
            self.has_expr(id),
        ensures
            final(out)@ == old(out)@ + infix(self.expr_tree(id)),
        decreases self.rank(id.raw), 2int,
    {
        proof {
            lemma_expr_parts(self, id);
        }
        let ghost e = self.expr(id);
        match self.get_expr(id) {
            Some(Expr::Binary(b)) => {
                assert(e.children()[0] == b.left && e.children()[1] == b.right);
                self.write_between(id, &b.op, b.left, b.right, out);
            },
            Some(Expr::Logical(b)) => {
                assert(e.children()[0] == b.left && e.children()[1] == b.right);
                self.write_between(id, &b.op, b.left, b.right, out);
            },
            Some(Expr::Call(c)) => {
                self.write_infix_call(id, c, out);
            },
            Some(Expr::Grouping(g)) => {
                assert(e.children()[0] == g.0);
                self.write_around(id, "(", g.0, ")", out);
            },
            Some(Expr::Literal(l)) => {
                push_str(out, l.token.as_str().as_str());
            },
            Some(Expr::Unary(u)) => {
                assert(e.children()[0] == u.right);
                let op = u.op.as_str();
                self.write_around(id, op.as_str(), u.right, "", out);
                assert(op@ + infix(self.expr_tree(u.right)) + ""@ =~= op@ + infix(
                    self.expr_tree(u.right),
                )) by {
                    reveal_strlit("");
                }
            },
            Some(Expr::Variable(v)) => {
                push_str(out, v.name.as_str().as_str());
            },
            Some(Expr::Assign(a)) => {
                assert(e.children()[0] == a.value);
                let mut head = a.name.as_str();
                push_str(&mut head, " = ");
                self.write_around(id, head.as_str(), a.value, "", out);
                assert(head@ + infix(self.expr_tree(a.value)) + ""@ =~= a.name@.text() + " = "@
                    + infix(self.expr_tree(a.value))) by {
                    reveal_strlit("");
                }
            },
            None => {},
        }
    }

    /// The prefix notation of each of the expressions `ids`.
    pub open spec fn polish_each(&self, ids: Seq<ExprId>) -> Seq<Seq<char>> {
        Seq::new(ids.len(), |i: int| polish(self.expr_tree(ids[i])))
    }
}

impl<'a> ExprRef<'a> {
    pub fn arena(&self) -> (a: &'a AstArena)
        ensures
            a == self.arena,
    {
        self.arena
    }

    pub fn id(&self) -> (id: ExprId)
        ensures
            id == self.id,
    {
        self.id
    }

    /// The span of the expression.
    pub fn span(&self) -> (s: Span)
        requires
            self.arena.wf(),
            self.arena.has_expr(self.id),
        ensures
            s == tree_span(self.arena.expr_tree(self.id)),
    {
        self.arena.expr_span(self.id)
    }

    /// The expression as it is written in source.
    pub fn to_string(&self) -> (s: String)
        requires
            self.arena.wf(),
            self.arena.has_expr(self.id),
        ensures
            s@ == infix(self.arena.expr_tree(self.id)),
    {
        let mut s = String::new();
        self.arena.write_infix(self.id, &mut s);
        assert(Seq::<char>::empty() + infix(self.arena.expr_tree(self.id)) =~= infix(
            self.arena.expr_tree(self.id),
        ));
        s
    }

    /// The expression in prefix notation.
    pub fn polish_notation(&self) -> (s: String)
        requires
            self.arena.wf(),
            self.arena.has_expr(self.id),
        ensures
            s@ == polish(self.arena.expr_tree(self.id)),
    {
        let mut s = String::new();
        self.arena.write_polish(self.id, &mut s);
        assert(Seq::<char>::empty() + polish(self.arena.expr_tree(self.id)) =~= polish(
            self.arena.expr_tree(self.id),
        ));
        s
    }
}

impl<'a> StmtRef<'a> {
    pub fn arena(&self) -> (a: &'a AstArena)
        ensures
            a == self.arena,
    {
        self.arena
    }

    pub fn id(&self) -> (id: StmtId)
        ensures
            id == self.id,
    {
        self.id
    }
}

/// Writes expressions in prefix notation.
pub struct AstPrinter {}

impl AstPrinter {
    /// The expression `id` of `arena` in prefix notation.
    pub fn print(arena: &AstArena, id: ExprId) -> (s: String)
        requires
            arena.wf(),
            arena.has_expr(id),
        ensures
            s@ == polish(arena.expr_tree(id)),
    {
        arena.expr_ref(id).polish_notation()
    }
}

} // verus!
