//! The resolver: how many scopes lie between each use of a variable and
//! the scope that binds it.
//!
//! The resolver walks the program once, with the names that each open scope
//! has bound so far. For a use of a name it notes the distance from the
//! innermost scope to the nearest scope that binds the name; a name that no
//! open scope binds is left for the evaluator to look up at run time.

use crate::ast::lemma_expr_parts;
use crate::ast::lemma_stmt_parts;
use crate::ast::AstArena;
use crate::ast::Expr;
use crate::ast::ExprId;
use crate::ast::Stmt;
use crate::ast::StmtId;
use crate::tokens::Token;
use std::collections::HashMap;
use vstd::prelude::*;

verus! {

/// The names bound in each open scope, the outermost first.
pub type Scopes = Seq<Set<Seq<char>>>;

/// The depth noted for each use of a variable, by the raw id of the expression.
pub type Table = Map<u64, usize>;

/// The names in `names`.
pub open spec fn name_set(names: Seq<String>) -> Set<Seq<char>> {
    Set::new(|n: Seq<char>| exists|i: int| 0 <= i < names.len() && (#[trigger] names[i])@ == n)
}

/// The sets of names of the scopes `stack`.
pub open spec fn scope_sets(stack: Seq<Vec<String>>) -> Scopes {
    Seq::new(stack.len(), |i: int| name_set(stack[i]@))
}

/// The number of scopes between the innermost scope and the nearest scope,
/// from the scope at `from` outwards, that binds `name`.
pub open spec fn depth_from(scopes: Scopes, name: Seq<char>, from: int) -> Option<nat>
    decreases from + 1,
{
    if from < 0 || from >= scopes.len() {
        None
    } else if scopes[from].contains(name) {
        Some((scopes.len() - 1 - from) as nat)
    } else {
        depth_from(scopes, name, from - 1)
    }
}

/// The number of scopes between the innermost scope and the nearest scope
/// that binds `name`, if any scope does.
pub open spec fn depth_of(scopes: Scopes, name: Seq<char>) -> Option<nat> {
    depth_from(scopes, name, scopes.len() - 1)
}

/// The depth of a name is that of the innermost scope that binds it: the
/// scope at that depth binds the name, and no scope inside it does; and a
/// name without a depth is bound by no scope.
pub proof fn lemma_depth_is_nearest(scopes: Scopes, name: Seq<char>)
    ensures
        match depth_of(scopes, name) {
            Some(d) => d < scopes.len() && scopes[scopes.len() - 1 - d].contains(name) && forall|
                e: int,
            |
                0 <= e < d ==> !(#[trigger] scopes[scopes.len() - 1 - e]).contains(name),
            None => forall|i: int| 0 <= i < scopes.len() ==> !(#[trigger] scopes[i]).contains(name),
        },
{
    lemma_depth_from(scopes, name, scopes.len() - 1);
}

proof fn lemma_depth_from(scopes: Scopes, name: Seq<char>, from: int)
    requires
        -1 <= from < scopes.len(),
    ensures
        match depth_from(scopes, name, from) {
            Some(d) => scopes.len() - 1 - from <= d < scopes.len() && scopes[scopes.len() - 1
                - d].contains(name) && forall|e: int|
                scopes.len() - 1 - from <= e < d ==> !(#[trigger] scopes[scopes.len() - 1
                    - e]).contains(name),
            None => forall|i: int| 0 <= i <= from ==> !(#[trigger] scopes[i]).contains(name),
        },
    decreases from + 1,
{
    if from >= 0 && !scopes[from].contains(name) {
        lemma_depth_from(scopes, name, from - 1);
        match depth_from(scopes, name, from) {
            Some(d) => {
                assert forall|e: int| scopes.len() - 1 - from <= e < d implies !(
                #[trigger] scopes[scopes.len() - 1 - e]).contains(name) by {
                    if e == scopes.len() - 1 - from {
                    }
                }
            },
            None => {},
        }
    }
}

/// `table` with the depth of `name` noted for the expression `id`, if the
/// name has one.
pub open spec fn noted(table: Table, id: ExprId, scopes: Scopes, name: Seq<char>) -> Table {
    match depth_of(scopes, name) {
        Some(d) => table.insert(id.raw, d as usize),
        None => table,
    }
}

/// `scopes` with `name` bound in the innermost scope.
pub open spec fn defined(scopes: Scopes, name: Seq<char>) -> Scopes {
    if scopes.len() == 0 {
        scopes
    } else {
        scopes.update(scopes.len() - 1, scopes.last().insert(name))
    }
}

/// `scopes` with each name of `params` bound in the innermost scope.
pub open spec fn defined_all(scopes: Scopes, params: Seq<Token>) -> Scopes
    decreases params.len(),
{
    if params.len() == 0 {
        scopes
    } else {
        defined(defined_all(scopes, params.drop_last()), params.last()@.text())
    }
}

/// The names that the open scopes bind, and the depths noted so far.
pub struct Resolved {
    pub scopes: Scopes,
    pub table: Table,
}

/// The table after the expression `id` was resolved.
pub open spec fn expr_depths(arena: &AstArena, id: ExprId, scopes: Scopes, table: Table) -> Table
    decreases arena.rank(id.raw), 1int, 0int,
{
    if !arena.has_expr(id) {
        table
    } else {
        let r = arena.rank(id.raw);
        match arena.expr(id) {
            Expr::Literal(_) => table,
            Expr::Variable(e) => noted(table, id, scopes, e.name@.text()),
            Expr::Grouping(e) => if arena.rank(e.0.raw) < r {
                expr_depths(arena, e.0, scopes, table)
            } else {
                table
            },
            Expr::Unary(e) => if arena.rank(e.right.raw) < r {
                expr_depths(arena, e.right, scopes, table)
            } else {
                table
            },
            Expr::Assign(e) => if arena.rank(e.value.raw) < r {
                noted(expr_depths(arena, e.value, scopes, table), id, scopes, e.name@.text())
            } else {
                table
            },
            Expr::Binary(e) => if arena.rank(e.left.raw) < r && arena.rank(e.right.raw) < r {
                expr_depths(arena, e.right, scopes, expr_depths(arena, e.left, scopes, table))
            } else {
                table
            },
            Expr::Logical(e) => if arena.rank(e.left.raw) < r && arena.rank(e.right.raw) < r {
                expr_depths(arena, e.right, scopes, expr_depths(arena, e.left, scopes, table))
            } else {
                table
            },
            Expr::Call(e) => if arena.rank(e.callee.raw) < r {
                exprs_depths(
                    arena,
                    e.args@,
                    r,
                    scopes,
                    expr_depths(arena, e.callee, scopes, table),
                )
            } else {
                table
            },
        }
    }
}

/// The table after the expressions `ids`, all stored before rank `r`, were
/// resolved in order.
pub open spec fn exprs_depths(
    arena: &AstArena,
    ids: Seq<ExprId>,
    r: nat,
    scopes: Scopes,
    table: Table,
) -> Table
    decreases r, 0int, ids.len(),
{
    if ids.len() == 0 {
        table
    } else if arena.rank(ids[0].raw) < r {
        exprs_depths(
            arena,
            ids.drop_first(),
            r,
            scopes,
            expr_depths(arena, ids[0], scopes, table),
        )
    } else {
        table
    }
}

/// The table after the expression `id` was resolved, if there is one.
pub open spec fn opt_expr_depths(
    arena: &AstArena,
    id: Option<ExprId>,
    scopes: Scopes,
    table: Table,
) -> Table {
    match id {
        Some(e) => expr_depths(arena, e, scopes, table),
        None => table,
    }
}

/// The scopes and the table after the statement `id` was resolved.
pub open spec fn stmt_depths(arena: &AstArena, id: StmtId, state: Resolved) -> Resolved
    decreases arena.rank(id.raw), 1int, 0int,
{
    if !arena.has_stmt(id) {
        state
    } else {
        let r = arena.rank(id.raw);
        let scopes = state.scopes;
        match arena.stmt(id) {
            Stmt::Print(s) => Resolved {
                scopes,
                table: expr_depths(arena, s.expr, scopes, state.table),
            },
            Stmt::Expression(s) => Resolved {
                scopes,
                table: expr_depths(arena, s.expr, scopes, state.table),
            },
            Stmt::Return(s) => Resolved {
                scopes,
                table: opt_expr_depths(arena, s.expr, scopes, state.table),
            },
            Stmt::Var(s) => Resolved {
                scopes: defined(scopes, s.ident@.text()),
                table: opt_expr_depths(arena, s.initializer, scopes, state.table),
            },
            Stmt::Block(s) => Resolved {
                scopes,
                table: stmts_depths(
                    arena,
                    s.statements@,
                    r,
                    Resolved { scopes: scopes.push(Set::empty()), table: state.table },
                ).table,
            },
            Stmt::If(s) => {
                let after_condition = Resolved {
                    scopes,
                    table: expr_depths(arena, s.condition, scopes, state.table),
                };
                if arena.rank(s.then_branch.raw) < r {
                    let after_then = stmt_depths(arena, s.then_branch, after_condition);
                    match s.else_branch {
                        Some(e) => if arena.rank(e.raw) < r {
                            stmt_depths(arena, e, after_then)
                        } else {
                            after_then
                        },
                        None => after_then,
                    }
                } else {
                    after_condition
                }
            },
            Stmt::While(s) => {
                let after_condition = Resolved {
                    scopes,
                    table: expr_depths(arena, s.condition, scopes, state.table),
                };
                if arena.rank(s.body.raw) < r {
                    stmt_depths(arena, s.body, after_condition)
                } else {
                    after_condition
                }
            },
            Stmt::Function(s) => {
                let outer = defined(scopes, s.name@.text());
                Resolved {
                    scopes: outer,
                    table: stmts_depths(
                        arena,
                        s.body@,
                        r,
                        Resolved {
                            scopes: defined_all(outer.push(Set::empty()), s.params@),
                            table: state.table,
                        },
                    ).table,
                }
            },
        }
    }
}

/// The scopes and the table after the statements `ids`, all stored before
/// rank `r`, were resolved in order.
pub open spec fn stmts_depths(arena: &AstArena, ids: Seq<StmtId>, r: nat, state: Resolved) -> Resolved
    decreases r, 0int, ids.len(),
{
    if ids.len() == 0 {
        state
    } else if arena.rank(ids[0].raw) < r {
        stmts_depths(arena, ids.drop_first(), r, stmt_depths(arena, ids[0], state))
    } else {
        state
    }
}

/// The scopes and the table after the top-level statements `ids` were
/// resolved in order.
pub open spec fn program_depths(arena: &AstArena, ids: Seq<StmtId>, state: Resolved) -> Resolved
    decreases ids.len(),
{
    if ids.len() == 0 {
        state
    } else {
        program_depths(arena, ids.drop_first(), stmt_depths(arena, ids[0], state))
    }
}

/// Defining names keeps the number of scopes.
pub proof fn lemma_defined_all_len(scopes: Scopes, params: Seq<Token>)
    ensures
        defined_all(scopes, params).len() == scopes.len(),
    decreases params.len(),
{
    if params.len() > 0 {
        lemma_defined_all_len(scopes, params.drop_last());
    }
}

/// Defining names changes the innermost scope only.
pub proof fn lemma_defined_all_outer(scopes: Scopes, params: Seq<Token>)
    requires
        scopes.len() > 0,
    ensures
        defined_all(scopes, params).drop_last() == scopes.drop_last(),
    decreases params.len(),
{
    if params.len() > 0 {
        lemma_defined_all_outer(scopes, params.drop_last());
        lemma_defined_all_len(scopes, params.drop_last());
        assert(defined_all(scopes, params).drop_last() =~= scopes.drop_last());
    } else {
    }
}

/// Resolving a statement changes the innermost scope only, and leaves as
/// many scopes open as it found.
pub proof fn lemma_stmt_keeps_outer(arena: &AstArena, id: StmtId, state: Resolved)
    requires
        state.scopes.len() > 0,
    ensures
        stmt_depths(arena, id, state).scopes.len() == state.scopes.len(),
        stmt_depths(arena, id, state).scopes.drop_last() == state.scopes.drop_last(),
    decreases arena.rank(id.raw), 1int, 0int,
{
    if arena.has_stmt(id) {
        let r = arena.rank(id.raw);
        let scopes = state.scopes;
        match arena.stmt(id) {
            Stmt::Var(s) => {
                assert(defined(scopes, s.ident@.text()).drop_last() =~= scopes.drop_last());
            },
            Stmt::Function(s) => {
                assert(defined(scopes, s.name@.text()).drop_last() =~= scopes.drop_last());
            },
            Stmt::If(s) => {
                let after_condition = Resolved {
                    scopes,
                    table: expr_depths(arena, s.condition, scopes, state.table),
                };
                if arena.rank(s.then_branch.raw) < r {
                    lemma_stmt_keeps_outer(arena, s.then_branch, after_condition);
                    let after_then = stmt_depths(arena, s.then_branch, after_condition);
                    match s.else_branch {
                        Some(e) => {
                            if arena.rank(e.raw) < r {
                                lemma_stmt_keeps_outer(arena, e, after_then);
                            }
                        },
                        None => {},
                    }
                }
            },
            Stmt::While(s) => {
                let after_condition = Resolved {
                    scopes,
                    table: expr_depths(arena, s.condition, scopes, state.table),
                };
                if arena.rank(s.body.raw) < r {
                    lemma_stmt_keeps_outer(arena, s.body, after_condition);
                }
            },
            _ => {},
        }
    }
}

/// Resolving statements in order changes the innermost scope only.
pub proof fn lemma_stmts_keep_outer(arena: &AstArena, ids: Seq<StmtId>, r: nat, state: Resolved)
    requires
        state.scopes.len() > 0,
    ensures
        stmts_depths(arena, ids, r, state).scopes.len() == state.scopes.len(),
        stmts_depths(arena, ids, r, state).scopes.drop_last() == state.scopes.drop_last(),
    decreases r, 0int, ids.len(),
{
    if ids.len() > 0 && arena.rank(ids[0].raw) < r {
        lemma_stmt_keeps_outer(arena, ids[0], state);
        lemma_stmts_keep_outer(arena, ids.drop_first(), r, stmt_depths(arena, ids[0], state));
    }
}

/// The depths that the resolver has noted.
pub struct Depths {
    pub table: HashMap<u64, usize>,
}

impl View for Depths {
    type V = Table;

    open spec fn view(&self) -> Table {
        self.table@
    }
}

impl Depths {
    pub fn new() -> (d: Self)
        ensures
            d@ == Map::<u64, usize>::empty(),
    {
        Depths { table: HashMap::new() }
    }

    /// Notes `depth` for the expression `id`.
    pub fn resolve_var(&mut self, id: ExprId, depth: usize)
        ensures
            final(self)@ == old(self)@.insert(id.raw, depth),
    {
        broadcast use vstd::std_specs::hash::group_hash_axioms;

        self.table.insert(id.raw, depth);
    }

    /// The depth noted for the expression `id`, if one was.
    pub fn get(&self, id: ExprId) -> (depth: Option<usize>)
        ensures
            depth == (if self@.dom().contains(id.raw) {
                Some(self@[id.raw])
            } else {
                None
            }),
    {
        broadcast use vstd::std_specs::hash::group_hash_axioms;

        match self.table.get(&id.raw) {
            Some(d) => Some(*d),
            None => None,
        }
    }
}

/// The names bound in each open scope, the outermost first.
pub struct Resolver {
    pub scope_stack: Vec<Vec<String>>,
}

fn holds(names: &Vec<String>, name: &String) -> (b: bool)
    ensures
        b == name_set(names@).contains(name@),
{
    let mut i: usize = 0;
    while i < names.len()
        invariant
            i <= names.len(),
            forall|j: int| 0 <= j < i ==> (#[trigger] names@[j])@ != name@,
        decreases names.len() - i,
    {
        if names[i] == *name {
            return true;
        }
        i += 1;
    }
    false
}

impl Resolver {
    /// The sets of names of the open scopes.
    pub open spec fn scopes(&self) -> Scopes {
        scope_sets(self.scope_stack@)
    }

    /// A resolver with an empty global scope.
    pub fn new() -> (r: Self)
        ensures
            r.scope_stack@.len() == 1,
            r.scopes() == seq![Set::<Seq<char>>::empty()],
    {
        let mut scope_stack: Vec<Vec<String>> = Vec::new();
        scope_stack.push(Vec::new());
        let r = Resolver { scope_stack };
        assert(r.scopes() =~= seq![Set::<Seq<char>>::empty()]) by {
            assert(name_set(r.scope_stack@[0]@) =~= Set::<Seq<char>>::empty());
        }
        r
    }

    /// The depth of `name` in the open scopes.
    fn depth(&self, name: &String) -> (d: Option<usize>)
        ensures
            match (d, depth_of(self.scopes(), name@)) {
                (Some(found), Some(expected)) => found == expected,
                (None, None) => true,
                _ => false,
            },
    {
        let n = self.scope_stack.len();
        let mut i: usize = n;
        while i > 0
            invariant
                i <= n,
                n == self.scope_stack@.len(),
                depth_from(self.scopes(), name@, i - 1) == depth_of(self.scopes(), name@),
            decreases i,
        {
            i -= 1;
            if holds(&self.scope_stack[i], name) {
                return Some(n - 1 - i);
            }
        }
        None
    }

    /// Notes the depth of `name` for the expression `id`, if it has one.
    fn resolve_local(&self, id: ExprId, name: &Token, table: &mut Depths)
        ensures
            final(table)@ == noted(old(table)@, id, self.scopes(), name@.text()),
    {
        let text = name.as_str();
        match self.depth(&text) {
            Some(d) => {
                table.resolve_var(id, d);
            },
            None => {},
        }
    }

    /// Binds `name` in the innermost scope.
    fn define(&mut self, name: &Token)
        ensures
            final(self).scope_stack@.len() == old(self).scope_stack@.len(),
            final(self).scopes() == defined(old(self).scopes(), name@.text()),
    {
        let n = self.scope_stack.len();
        if n == 0 {
            return ;
        }
        let text = name.as_str();
        let ghost before = self.scope_stack@;
        let mut inner: Vec<String> = Vec::new();
        std::mem::swap(&mut inner, &mut self.scope_stack[n - 1]);
        let ghost names = inner@;
        inner.push(text);
        self.scope_stack.set(n - 1, inner);
        proof {
            assert(name_set(self.scope_stack@[n - 1]@)
                =~= name_set(names).insert(name@.text())) by {
                assert forall|x: Seq<char>|
                    name_set(names).insert(name@.text()).contains(x) implies name_set(
                    self.scope_stack@[n - 1]@,
                ).contains(x) by {
                    if x == name@.text() {
                        assert(self.scope_stack@[n - 1]@[names.len() as int]@ == x);
                    } else {
                        let i = choose|i: int| 0 <= i < names.len() && (#[trigger] names[i])@ == x;
                        assert(self.scope_stack@[n - 1]@[i]@ == x);
                    }
                }
                assert forall|x: Seq<char>|
                    name_set(self.scope_stack@[n - 1]@).contains(x) implies name_set(names).insert(
                    name@.text(),
                ).contains(x) by {
                    let i = choose|i: int|
                        0 <= i < self.scope_stack@[n - 1]@.len() && (
                        #[trigger] self.scope_stack@[n - 1]@[i])@ == x;
                    if i < names.len() {
                        assert(names[i]@ == x);
                    }
                }
            }
            assert(self.scopes() =~= defined(scope_sets(before), name@.text()));
        }
    }

    fn begin_scope(&mut self)
        ensures
            final(self).scope_stack@.len() == old(self).scope_stack@.len() + 1,
            final(self).scopes() == old(self).scopes().push(Set::empty()),
    {
        self.scope_stack.push(Vec::new());
        proof {
            let n = old(self).scope_stack@.len() as int;
            assert(name_set(self.scope_stack@[n]@) =~= Set::<Seq<char>>::empty());
            assert(self.scopes() =~= old(self).scopes().push(Set::empty()));
        }
    }

    fn end_scope(&mut self)
        requires
            old(self).scope_stack@.len() > 0,
        ensures
            final(self).scope_stack@.len() == old(self).scope_stack@.len() - 1,
            final(self).scopes() == old(self).scopes().drop_last(),
    {
        self.scope_stack.pop();
        assert(self.scopes() =~= old(self).scopes().drop_last());
    }

    /// Resolves the expression `id`.
    pub fn resolve_expr(&self, arena: &AstArena, id: ExprId, table: &mut Depths)
        requires
            arena.wf(),
            arena.has_expr(id),
        ensures
            final(table)@ == expr_depths(arena, id, self.scopes(), old(table)@),
        decreases arena.rank(id.raw), 1int, 0int,
    {
        proof {
            lemma_expr_parts(arena, id);
        }
        let ghost e = arena.expr(id);
        match arena.get_expr(id) {
            Some(Expr::Literal(_)) => {},
            Some(Expr::Variable(v)) => {
                self.resolve_local(id, &v.name, table);
            },
            Some(Expr::Grouping(g)) => {
                assert(e.children()[0] == g.0);
                self.resolve_expr(arena, g.0, table);
            },
            Some(Expr::Unary(u)) => {
                assert(e.children()[0] == u.right);
                self.resolve_expr(arena, u.right, table);
            },
            Some(Expr::Assign(a)) => {
                assert(e.children()[0] == a.value);
                self.resolve_expr(arena, a.value, table);
                self.resolve_local(id, &a.name, table);
            },
            Some(Expr::Binary(b)) => {
                assert(e.children()[0] == b.left && e.children()[1] == b.right);
                self.resolve_expr(arena, b.left, table);
                self.resolve_expr(arena, b.right, table);
            },
            Some(Expr::Logical(b)) => {
                assert(e.children()[0] == b.left && e.children()[1] == b.right);
                self.resolve_expr(arena, b.left, table);
                self.resolve_expr(arena, b.right, table);
            },
            Some(Expr::Call(c)) => {
                assert(e.children()[0] == c.callee);
                assert forall|i: int| 0 <= i < c.args@.len() implies arena.has_expr(
                    #[trigger] c.args@[i],
                ) && arena.rank(c.args@[i].raw) < arena.rank(id.raw) by {
                    assert(e.children()[i + 1] == c.args@[i]);
                }
                self.resolve_expr(arena, c.callee, table);
                self.resolve_exprs(arena, &c.args, id, table);
            },
            None => {},
        }
    }

    /// Resolves the expressions `ids`, parts of the expression `parent`, in order.
    fn resolve_exprs(&self, arena: &AstArena, ids: &Vec<ExprId>, parent: ExprId, table: &mut Depths)
        requires
            arena.wf(),
            forall|i: int|
                0 <= i < ids@.len() ==> arena.has_expr(#[trigger] ids@[i]) && arena.rank(
                    ids@[i].raw,
                ) < arena.rank(parent.raw),
        ensures
            final(table)@ == exprs_depths(
                arena,
                ids@,
                arena.rank(parent.raw),
                self.scopes(),
                old(table)@,
            ),
        decreases arena.rank(parent.raw), 0int, ids@.len(),
    {
        let ghost r = arena.rank(parent.raw);
        let ghost goal = exprs_depths(arena, ids@, r, self.scopes(), table@);
        let mut i: usize = 0;
        assert(ids@.skip(0) =~= ids@);
        while i < ids.len()
            invariant
                i <= ids@.len(),
                arena.wf(),
                r == arena.rank(parent.raw),
                forall|i: int|
                    0 <= i < ids@.len() ==> arena.has_expr(#[trigger] ids@[i]) && arena.rank(
                        ids@[i].raw,
                    ) < r,
                goal == exprs_depths(arena, ids@.skip(i as int), r, self.scopes(), table@),
            decreases ids@.len() - i,
        {
            assert(ids@.skip(i as int)[0] == ids@[i as int]);
            assert(ids@.skip(i as int).drop_first() =~= ids@.skip(i + 1));
            self.resolve_expr(arena, ids[i], table);
            i += 1;
        }
    }

    /// Resolves the expression `id`, if there is one.
    fn resolve_opt_expr(&self, arena: &AstArena, id: Option<ExprId>, table: &mut Depths)
        requires
            arena.wf(),
            id matches Some(e) ==> arena.has_expr(e),
        ensures
            final(table)@ == opt_expr_depths(arena, id, self.scopes(), old(table)@),
    {
        match id {
            Some(e) => {
                self.resolve_expr(arena, e, table);
            },
            None => {},
        }
    }

    /// Resolves the body of a block or a function: its statements in order,
    /// in the scope that was opened for it and is closed after it.
    fn resolve_body(
        &mut self,
        arena: &AstArena,
        ids: &Vec<StmtId>,
        parent: StmtId,
        table: &mut Depths,
    )
        requires
            arena.wf(),
            old(self).scope_stack@.len() > 1,
            forall|i: int|
                0 <= i < ids@.len() ==> arena.has_stmt(#[trigger] ids@[i]) && arena.rank(
                    ids@[i].raw,
                ) < arena.rank(parent.raw),
        ensures
            final(self).scope_stack@.len() == old(self).scope_stack@.len() - 1,
            final(self).scopes() == old(self).scopes().drop_last(),
            final(table)@ == stmts_depths(
                arena,
                ids@,
                arena.rank(parent.raw),
                Resolved { scopes: old(self).scopes(), table: old(table)@ },
            ).table,
        decreases arena.rank(parent.raw), 0int, ids@.len() + 1,
    {
        proof {
            lemma_stmts_keep_outer(
                arena,
                ids@,
                arena.rank(parent.raw),
                Resolved { scopes: self.scopes(), table: table@ },
            );
        }
        self.resolve_all(arena, ids, parent, table);
        self.end_scope();
    }

    /// Resolves the statements `ids`, parts of the statement `parent`, in order.
    fn resolve_all(&mut self, arena: &AstArena, ids: &Vec<StmtId>, parent: StmtId, table: &mut Depths)
        requires
            arena.wf(),
            old(self).scope_stack@.len() > 0,
            forall|i: int|
                0 <= i < ids@.len() ==> arena.has_stmt(#[trigger] ids@[i]) && arena.rank(
                    ids@[i].raw,
                ) < arena.rank(parent.raw),
        ensures
            final(self).scope_stack@.len() == old(self).scope_stack@.len(),
            (Resolved { scopes: final(self).scopes(), table: final(table)@ }) == stmts_depths(
                arena,
                ids@,
                arena.rank(parent.raw),
                Resolved { scopes: old(self).scopes(), table: old(table)@ },
            ),
        decreases arena.rank(parent.raw), 0int, ids@.len(),
    {
        let ghost r = arena.rank(parent.raw);
        let ghost goal = stmts_depths(
            arena,
            ids@,
            r,
            Resolved { scopes: self.scopes(), table: table@ },
        );
        let mut i: usize = 0;
        assert(ids@.skip(0) =~= ids@);
        while i < ids.len()
            invariant
                i <= ids@.len(),
                arena.wf(),
                r == arena.rank(parent.raw),
                self.scope_stack@.len() == old(self).scope_stack@.len(),
                self.scope_stack@.len() > 0,
                forall|i: int|
                    0 <= i < ids@.len() ==> arena.has_stmt(#[trigger] ids@[i]) && arena.rank(
                        ids@[i].raw,
                    ) < r,
                goal == stmts_depths(
                    arena,
                    ids@.skip(i as int),
                    r,
                    Resolved { scopes: self.scopes(), table: table@ },
                ),
            decreases ids@.len() - i,
        {
            assert(ids@.skip(i as int)[0] == ids@[i as int]);
            assert(ids@.skip(i as int).drop_first() =~= ids@.skip(i + 1));
            self.resolve_stmt(arena, ids[i], table);
            i += 1;
        }
    }

    /// Binds each of `params` in the innermost scope.
    fn define_all(&mut self, params: &Vec<Token>)
        ensures
            final(self).scope_stack@.len() == old(self).scope_stack@.len(),
            final(self).scopes() == defined_all(old(self).scopes(), params@),
    {
        let mut i: usize = 0;
        assert(params@.take(0) =~= Seq::<Token>::empty());
        while i < params.len()
            invariant
                i <= params@.len(),
                self.scope_stack@.len() == old(self).scope_stack@.len(),
                self.scopes() == defined_all(old(self).scopes(), params@.take(i as int)),
            decreases params@.len() - i,
        {
            assert(params@.take(i + 1).drop_last() =~= params@.take(i as int));
            self.define(&params[i]);
            i += 1;
        }
        assert(params@.take(params@.len() as int) =~= params@);
    }

    /// Resolves the function `id`: its name is bound where it is declared,
    /// its parameters in a scope of its own, in which its body is resolved.
    fn resolve_fn(
        &mut self,
        arena: &AstArena,
        id: StmtId,
        name: &Token,
        params: &Vec<Token>,
        body: &Vec<StmtId>,
        table: &mut Depths,
    )
        requires
            arena.wf(),
            old(self).scope_stack@.len() > 0,
            forall|i: int|
                0 <= i < body@.len() ==> arena.has_stmt(#[trigger] body@[i]) && arena.rank(
                    body@[i].raw,
                ) < arena.rank(id.raw),
        ensures
            final(self).scope_stack@.len() == old(self).scope_stack@.len(),
            final(self).scopes() == defined(old(self).scopes(), name@.text()),
            final(table)@ == stmts_depths(
                arena,
                body@,
                arena.rank(id.raw),
                Resolved {
                    scopes: defined_all(
                        defined(old(self).scopes(), name@.text()).push(Set::empty()),
                        params@,
                    ),
                    table: old(table)@,
                },
            ).table,
        decreases arena.rank(id.raw), 0int, body@.len() + 2,
    {
        self.define(name);
        let ghost outer = self.scopes();
        self.begin_scope();
        self.define_all(params);
        self.resolve_body(arena, body, id, table);
        assert(outer.push(Set::<Seq<char>>::empty()).drop_last() =~= outer);
        assert(defined_all(outer.push(Set::empty()), params@).len() == outer.len() + 1) by {
            lemma_defined_all_len(outer.push(Set::empty()), params@);
        }
        assert(self.scopes() =~= outer) by {
            lemma_defined_all_outer(outer.push(Set::empty()), params@);
        }
    }

    /// Resolves the statement `id`.
    pub fn resolve_stmt(&mut self, arena: &AstArena, id: StmtId, table: &mut Depths)
        requires
            arena.wf(),
            arena.has_stmt(id),
            old(self).scope_stack@.len() > 0,
        ensures
            final(self).scope_stack@.len() == old(self).scope_stack@.len(),
            (Resolved { scopes: final(self).scopes(), table: final(table)@ }) == stmt_depths(
                arena,
                id,
                Resolved { scopes: old(self).scopes(), table: old(table)@ },
            ),
        decreases arena.rank(id.raw), 1int, 0int,
    {
        proof {
            lemma_stmt_parts(arena, id);
        }
        let ghost s = arena.stmt(id);
        match arena.get_stmt(id) {
            Some(Stmt::Print(p)) => {
                assert(s.exprs()[0] == p.expr);
                self.resolve_expr(arena, p.expr, table);
            },
            Some(Stmt::Expression(p)) => {
                assert(s.exprs()[0] == p.expr);
                self.resolve_expr(arena, p.expr, table);
            },
            Some(Stmt::Return(p)) => {
                assert(p.expr is Some ==> s.exprs()[0] == p.expr->0);
                self.resolve_opt_expr(arena, p.expr, table);
            },
            Some(Stmt::Var(v)) => {
                assert(v.initializer is Some ==> s.exprs()[0] == v.initializer->0);
                self.resolve_opt_expr(arena, v.initializer, table);
                self.define(&v.ident);
            },
            Some(Stmt::Block(b)) => {
                assert forall|i: int| 0 <= i < b.statements@.len() implies arena.has_stmt(
                    #[trigger] b.statements@[i],
                ) && arena.rank(b.statements@[i].raw) < arena.rank(id.raw) by {
                    assert(s.children()[i] == b.statements@[i]);
                }
                let ghost outer = self.scopes();
                self.begin_scope();
                self.resolve_body(arena, &b.statements, id, table);
                assert(outer.push(Set::<Seq<char>>::empty()).drop_last() =~= outer);
                proof {
                    lemma_stmts_keep_outer(
                        arena,
                        b.statements@,
                        arena.rank(id.raw),
                        Resolved { scopes: outer.push(Set::empty()), table: old(table)@ },
                    );
                }
            },
            Some(Stmt::If(c)) => {
                assert(s.exprs()[0] == c.condition);
                assert(s.children()[0] == c.then_branch);
                assert(c.else_branch is Some ==> s.children()[1] == c.else_branch->0);
                self.resolve_expr(arena, c.condition, table);
                self.resolve_stmt(arena, c.then_branch, table);
                match c.else_branch {
                    Some(e) => {
                        self.resolve_stmt(arena, e, table);
                    },
                    None => {},
                }
            },
            Some(Stmt::While(w)) => {
                assert(s.exprs()[0] == w.condition);
                assert(s.children()[0] == w.body);
                self.resolve_expr(arena, w.condition, table);
                self.resolve_stmt(arena, w.body, table);
            },
            Some(Stmt::Function(f)) => {
                assert forall|i: int| 0 <= i < f.body@.len() implies arena.has_stmt(
                    #[trigger] f.body@[i],
                ) && arena.rank(f.body@[i].raw) < arena.rank(id.raw) by {
                    assert(s.children()[i] == f.body@[i]);
                }
                self.resolve_fn(arena, id, &f.name, &f.params, &f.body, table);
            },
            None => {},
        }
    }

    /// Resolves the program `stmts` into `table`.
    pub fn resolve(&mut self, arena: &AstArena, stmts: &Vec<StmtId>, table: &mut Depths)
        requires
            arena.wf(),
            old(self).scope_stack@.len() > 0,
            forall|i: int| 0 <= i < stmts@.len() ==> arena.has_stmt(#[trigger] stmts@[i]),
        ensures
            final(self).scope_stack@.len() == old(self).scope_stack@.len(),
            (Resolved { scopes: final(self).scopes(), table: final(table)@ }) == program_depths(
                arena,
                stmts@,
                Resolved { scopes: old(self).scopes(), table: old(table)@ },
            ),
    {
        let ghost goal = program_depths(
            arena,
            stmts@,
            Resolved { scopes: self.scopes(), table: table@ },
        );
        let mut i: usize = 0;
        assert(stmts@.skip(0) =~= stmts@);
        while i < stmts.len()
            invariant
                i <= stmts@.len(),
                arena.wf(),
                self.scope_stack@.len() == old(self).scope_stack@.len(),
                self.scope_stack@.len() > 0,
                forall|i: int| 0 <= i < stmts@.len() ==> arena.has_stmt(#[trigger] stmts@[i]),
                goal == program_depths(
                    arena,
                    stmts@.skip(i as int),
                    Resolved { scopes: self.scopes(), table: table@ },
                ),
            decreases stmts@.len() - i,
        {
            assert(stmts@.skip(i as int)[0] == stmts@[i as int]);
            assert(stmts@.skip(i as int).drop_first() =~= stmts@.skip(i + 1));
            self.resolve_stmt(arena, stmts[i], table);
            i += 1;
        }
    }
}

} // verus!
