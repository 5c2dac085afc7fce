//! The syntax tree and the arena that owns it.
//!
//! Nodes name their children by id. The arena only grows: a node, once
//! stored, is never changed or removed, and it can only name nodes that were
//! stored before it.

use crate::tokens::Token;
use crate::tokens::TokenView;
use vstd::prelude::*;

verus! {

/// The id of an expression in an arena.
#[derive(Debug, Clone, Copy, PartialEq, Eq, Hash, Structural)]
pub struct ExprId {
    pub raw: u64,
}

/// The id of a statement in an arena.
#[derive(Debug, Clone, Copy, PartialEq, Eq, Hash, Structural)]
pub struct StmtId {
    pub raw: u64,
}

/// The value that a literal expression stands for. A number is kept as its
/// digits: it becomes a double when it is evaluated.
#[derive(Debug)]
pub enum Literal {
    Nil,
    Boolean(bool),
    String(String),
    Number(String),
}

/// A literal as contracts see it.
pub enum LiteralView {
    Nil,
    Boolean(bool),
    String(Seq<char>),
    Number(Seq<char>),
}

impl View for Literal {
    type V = LiteralView;

    open spec fn view(&self) -> LiteralView {
        match self {
            Literal::Nil => LiteralView::Nil,
            Literal::Boolean(b) => LiteralView::Boolean(*b),
            Literal::String(s) => LiteralView::String(s@),
            Literal::Number(s) => LiteralView::Number(s@),
        }
    }
}

impl Clone for Literal {
    fn clone(&self) -> (r: Self)
        ensures
            r == *self,
    {
        match self {
            Literal::Nil => Literal::Nil,
            Literal::Boolean(b) => Literal::Boolean(*b),
            Literal::String(s) => Literal::String(s.clone()),
            Literal::Number(s) => Literal::Number(s.clone()),
        }
    }
}

#[derive(Debug)]
pub struct ExprBinary {
    pub op: Token,
    pub left: ExprId,
    pub right: ExprId,
}

#[derive(Debug)]
pub struct ExprCall {
    pub callee: ExprId,
    pub r_paren: Token,
    pub args: Vec<ExprId>,
}

#[derive(Debug)]
pub struct ExprGrouping(pub ExprId);

#[derive(Debug)]
pub struct ExprLiteral {
    pub token: Token,
    pub literal: Literal,
}

#[derive(Debug)]
pub struct ExprUnary {
    pub op: Token,
    pub right: ExprId,
}

#[derive(Debug)]
pub struct ExprVariable {
    pub name: Token,
}

#[derive(Debug)]
pub struct ExprAssign {
    pub name: Token,
    pub value: ExprId,
}

#[derive(Debug)]
pub struct ExprLogical {
    pub op: Token,
    pub left: ExprId,
    pub right: ExprId,
}

#[derive(Debug)]
pub enum Expr {
    Binary(ExprBinary),
    Call(ExprCall),
    Grouping(ExprGrouping),
    Literal(ExprLiteral),
    Unary(ExprUnary),
    Variable(ExprVariable),
    Assign(ExprAssign),
    Logical(ExprLogical),
}

#[derive(Debug)]
pub struct StmtPrint {
    pub print_token: Token,
    pub expr: ExprId,
}

#[derive(Debug)]
pub struct StmtExpression {
    pub expr: ExprId,
}

#[derive(Debug)]
pub struct StmtVar {
    pub ident: Token,
    pub initializer: Option<ExprId>,
}

#[derive(Debug)]
pub struct StmtBlock {
    pub statements: Vec<StmtId>,
}

#[derive(Debug)]
pub struct StmtIf {
    pub condition: ExprId,
    pub then_branch: StmtId,
    pub else_branch: Option<StmtId>,
}

#[derive(Debug)]
pub struct StmtReturn {
    pub return_token: Token,
    pub expr: Option<ExprId>,
}

#[derive(Debug)]
pub struct StmtWhile {
    pub condition: ExprId,
    pub body: StmtId,
}

#[derive(Debug)]
pub struct StmtFunction {
    pub name: Token,
    pub params: Vec<Token>,
    pub body: Vec<StmtId>,
}

#[derive(Debug)]
pub enum Stmt {
    Print(StmtPrint),
    Expression(StmtExpression),
    Var(StmtVar),
    Block(StmtBlock),
    If(StmtIf),
    Return(StmtReturn),
    While(StmtWhile),
    Function(StmtFunction),
}

/// What an arena stores under one id.
#[derive(Debug)]
pub enum AstNode {
    Expr(Expr),
    Stmt(Stmt),
}

/// An expression with its subexpressions in place of their ids.
pub enum ExprTree {
    Binary(TokenView, Box<ExprTree>, Box<ExprTree>),
    Call(Box<ExprTree>, TokenView, Seq<ExprTree>),
    Grouping(Box<ExprTree>),
    Literal(TokenView, LiteralView),
    Unary(TokenView, Box<ExprTree>),
    Variable(TokenView),
    Assign(TokenView, Box<ExprTree>),
    Logical(TokenView, Box<ExprTree>, Box<ExprTree>),
    /// What an id that names no expression stands for.
    Missing,
}

/// A statement with its parts in place of their ids.
pub enum StmtTree {
    Print(TokenView, ExprTree),
    Expression(ExprTree),
    Var(TokenView, Option<ExprTree>),
    Block(Seq<StmtTree>),
    If(ExprTree, Box<StmtTree>, Option<Box<StmtTree>>),
    Return(TokenView, Option<ExprTree>),
    While(ExprTree, Box<StmtTree>),
    Function(TokenView, Seq<TokenView>, Seq<StmtTree>),
    /// What an id that names no statement stands for.
    Missing,
}

impl Expr {
    /// The ids of the subexpressions, in source order.
    pub open spec fn children(&self) -> Seq<ExprId> {
        match self {
            Expr::Binary(e) => seq![e.left, e.right],
            Expr::Call(e) => seq![e.callee] + e.args@,
            Expr::Grouping(e) => seq![e.0],
            Expr::Literal(_) => Seq::empty(),
            Expr::Unary(e) => seq![e.right],
            Expr::Variable(_) => Seq::empty(),
            Expr::Assign(e) => seq![e.value],
            Expr::Logical(e) => seq![e.left, e.right],
        }
    }
}

impl Stmt {
    /// The ids of the expressions that the statement holds directly.
    pub open spec fn exprs(&self) -> Seq<ExprId> {
        match self {
            Stmt::Print(s) => seq![s.expr],
            Stmt::Expression(s) => seq![s.expr],
            Stmt::Var(s) => match s.initializer {
                Some(e) => seq![e],
                None => Seq::empty(),
            },
            Stmt::Block(_) => Seq::empty(),
            Stmt::If(s) => seq![s.condition],
            Stmt::Return(s) => match s.expr {
                Some(e) => seq![e],
                None => Seq::empty(),
            },
            Stmt::While(s) => seq![s.condition],
            Stmt::Function(_) => Seq::empty(),
        }
    }

    /// The ids of the statements that the statement holds directly.
    pub open spec fn children(&self) -> Seq<StmtId> {
        match self {
            Stmt::Block(s) => s.statements@,
            Stmt::If(s) => match s.else_branch {
                Some(e) => seq![s.then_branch, e],
                None => seq![s.then_branch],
            },
            Stmt::While(s) => seq![s.body],
            Stmt::Function(s) => s.body@,
            _ => Seq::empty(),
        }
    }
}

/// Whether `raw` is the 64-bit form of a slot map key: the lowest bit of its
/// upper half, the version, is set.
pub open spec fn is_key(raw: u64) -> bool {
    raw & 0x1_0000_0000 != 0
}

/// The most nodes that an arena holds: a slot map has fewer than `u32::MAX`
/// slots, and keeps one of them without a value.
pub const MAX_NODES: usize = 0xffff_fffe;

/// The slot map that backs an arena. Only the four functions below touch it,
/// and none of them removes a value: every slot it has ever made is in use,
/// but for the one slot that a slot map keeps without a value.
#[verifier::external_body]
pub struct NodeStore {
    slots: slotmap::SlotMap<slotmap::DefaultKey, AstNode>,
}

/// The values in a store, each under its key written as 64 bits.
pub uninterp spec fn stored(store: NodeStore) -> Map<u64, AstNode>;

/// `SlotMap::new`: a slot map without values.
#[verifier::external_body]
fn store_new() -> (store: NodeStore)
    ensures
        stored(store) == (Map::<u64, AstNode>::empty()),
{
    NodeStore { slots: slotmap::SlotMap::new() }
}

/// `SlotMap::len`: the number of values.
#[verifier::external_body]
fn store_len(store: &NodeStore) -> (count: usize)
    ensures
        count == stored(*store).dom().len(),
{
    store.slots.len()
}

/// `SlotMap::insert`, which stores `node` under a key that was not in use
/// and leaves every other value as it was. Besides its values the map keeps
/// one slot that holds none, and `insert` panics once it has `u32::MAX`
/// slots: the bound is on slots, one more than the values, so the caller
/// must hold fewer than [`MAX_NODES`] values. The key is handed out as
/// `KeyData::as_ffi` writes it: the version, which is odd, in the upper half.
#[verifier::external_body]
fn store_insert(store: &mut NodeStore, node: AstNode) -> (id: u64)
    requires
        stored(*old(store)).dom().finite(),
        stored(*old(store)).dom().len() < MAX_NODES,
    ensures
        is_key(id),
        !stored(*old(store)).dom().contains(id),
        stored(*final(store)) == stored(*old(store)).insert(id, node),
{
    slotmap::Key::data(&store.slots.insert(node)).as_ffi()
}

/// `SlotMap::get` with the key that `KeyData::from_ffi` makes of `id`, which
/// is `id` with the lowest bit of the version set: the value stored under
/// that key, if there is one.
#[verifier::external_body]
fn store_get(store: &NodeStore, id: u64) -> (found: Option<&AstNode>)
    ensures
        found == (if stored(*store).dom().contains(id | 0x1_0000_0000) {
            Some(&stored(*store)[id | 0x1_0000_0000])
        } else {
            None
        }),
{
    store.slots.get(slotmap::KeyData::from_ffi(id).into())
}

/// Owner of every node of a program's syntax tree.
pub struct AstArena {
    store: NodeStore,
    order: Ghost<Map<u64, nat>>,
}

impl Default for AstArena {
    /// An arena without nodes, as [`AstArena::new`] gives it.
    fn default() -> (arena: Self)
        ensures
            arena.wf(),
            arena.count() == 0,
    {
        AstArena::new()
    }
}

impl AstArena {
    /// The nodes of the arena, each under the raw value of its id.
    pub closed spec fn nodes(&self) -> Map<u64, AstNode> {
        stored(self.store)
    }

    /// The place of a node in the order in which the nodes were stored.
    pub closed spec fn rank(&self, raw: u64) -> nat {
        self.order@[raw]
    }

    /// The number of nodes.
    pub open spec fn count(&self) -> nat {
        self.nodes().dom().len()
    }

    /// Whether another node can be stored.
    pub open spec fn has_room(&self) -> bool {
        self.count() < MAX_NODES
    }

    /// Whether `id` names an expression of this arena.
    pub open spec fn has_expr(&self, id: ExprId) -> bool {
        is_key(id.raw) && self.nodes().dom().contains(id.raw) && self.nodes()[id.raw] is Expr
    }

    /// Whether `id` names a statement of this arena.
    pub open spec fn has_stmt(&self, id: StmtId) -> bool {
        is_key(id.raw) && self.nodes().dom().contains(id.raw) && self.nodes()[id.raw] is Stmt
    }

    /// The expression that `id` names.
    pub open spec fn expr(&self, id: ExprId) -> Expr
        recommends
            self.has_expr(id),
    {
        self.nodes()[id.raw]->Expr_0
    }

    /// The statement that `id` names.
    pub open spec fn stmt(&self, id: StmtId) -> Stmt
        recommends
            self.has_stmt(id),
    {
        self.nodes()[id.raw]->Stmt_0
    }

    /// Every id in `expr` names an expression stored before rank `limit`.
    pub open spec fn expr_closed(&self, expr: Expr, limit: nat) -> bool {
        forall|i: int|
            0 <= i < expr.children().len() ==> self.has_expr(#[trigger] expr.children()[i])
                && self.rank(expr.children()[i].raw) < limit
    }

    /// Every id in `stmt` names a node of the right sort stored before rank `limit`.
    pub open spec fn stmt_closed(&self, stmt: Stmt, limit: nat) -> bool {
        &&& forall|i: int|
            0 <= i < stmt.exprs().len() ==> self.has_expr(#[trigger] stmt.exprs()[i]) && self.rank(
                stmt.exprs()[i].raw,
            ) < limit
        &&& forall|i: int|
            0 <= i < stmt.children().len() ==> self.has_stmt(#[trigger] stmt.children()[i])
                && self.rank(stmt.children()[i].raw) < limit
    }

    /// The arena is sound: it holds finitely many nodes, no more than
    /// [`MAX_NODES`], and every id inside a node names a node of the right
    /// sort that was stored earlier.
    pub closed spec fn wf(&self) -> bool {
        &&& self.nodes().dom().finite()
        &&& self.count() <= MAX_NODES
        &&& forall|raw: u64| #[trigger]
            self.nodes().dom().contains(raw) ==> self.rank(raw) < self.count()
                && match self.nodes()[raw] {
                AstNode::Expr(e) => self.expr_closed(e, self.rank(raw)),
                AstNode::Stmt(s) => self.stmt_closed(s, self.rank(raw)),
            }
    }

    /// `self` holds every node of `before`, unchanged and at the same rank.
    pub open spec fn extends(&self, before: &AstArena) -> bool {
        &&& before.count() <= self.count()
        &&& forall|raw: u64| #[trigger]
            before.nodes().dom().contains(raw) ==> self.nodes().dom().contains(raw)
                && self.nodes()[raw] == before.nodes()[raw] && self.rank(raw) == before.rank(raw)
    }

    /// The expression `e`, whose parts were stored before rank `r`, as a tree.
    pub open spec fn node_tree(&self, e: Expr, r: nat) -> ExprTree
        decreases r, 0int,
    {
        match e {
            Expr::Literal(e) => ExprTree::Literal(e.token@, e.literal@),
            Expr::Variable(e) => ExprTree::Variable(e.name@),
            Expr::Grouping(e) => if self.rank(e.0.raw) < r {
                ExprTree::Grouping(Box::new(self.expr_tree(e.0)))
            } else {
                ExprTree::Missing
            },
            Expr::Unary(e) => if self.rank(e.right.raw) < r {
                ExprTree::Unary(e.op@, Box::new(self.expr_tree(e.right)))
            } else {
                ExprTree::Missing
            },
            Expr::Assign(e) => if self.rank(e.value.raw) < r {
                ExprTree::Assign(e.name@, Box::new(self.expr_tree(e.value)))
            } else {
                ExprTree::Missing
            },
            Expr::Binary(e) => if self.rank(e.left.raw) < r && self.rank(e.right.raw) < r {
                ExprTree::Binary(
                    e.op@,
                    Box::new(self.expr_tree(e.left)),
                    Box::new(self.expr_tree(e.right)),
                )
            } else {
                ExprTree::Missing
            },
            Expr::Logical(e) => if self.rank(e.left.raw) < r && self.rank(e.right.raw) < r {
                ExprTree::Logical(
                    e.op@,
                    Box::new(self.expr_tree(e.left)),
                    Box::new(self.expr_tree(e.right)),
                )
            } else {
                ExprTree::Missing
            },
            Expr::Call(e) => if self.rank(e.callee.raw) < r {
                ExprTree::Call(
                    Box::new(self.expr_tree(e.callee)),
                    e.r_paren@,
                    Seq::new(
                        e.args@.len(),
                        |i: int|
                            if 0 <= i < e.args@.len() && self.rank(e.args@[i].raw) < r {
                                self.expr_tree(e.args@[i])
                            } else {
                                ExprTree::Missing
                            },
                    ),
                )
            } else {
                ExprTree::Missing
            },
        }
    }

    /// The expression `id` as a tree.
    pub open spec fn expr_tree(&self, id: ExprId) -> ExprTree
        decreases self.rank(id.raw), 1int,
    {
        if !self.has_expr(id) {
            ExprTree::Missing
        } else {
            self.node_tree(self.expr(id), self.rank(id.raw))
        }
    }

    /// The expressions `ids` as trees.
    pub open spec fn expr_trees(&self, ids: Seq<ExprId>) -> Seq<ExprTree> {
        Seq::new(ids.len(), |i: int| self.expr_tree(ids[i]))
    }

    /// The expression `id` as a tree, if there is an id.
    pub open spec fn opt_expr_tree(&self, id: Option<ExprId>) -> Option<ExprTree> {
        match id {
            Some(e) => Some(self.expr_tree(e)),
            None => None,
        }
    }

    /// The statement `s`, whose parts were stored before rank `r`, as a tree.
    pub open spec fn stmt_node_tree(&self, s: Stmt, r: nat) -> StmtTree
        decreases r, 0int,
    {
        match s {
            Stmt::Print(s) => StmtTree::Print(s.print_token@, self.expr_tree(s.expr)),
            Stmt::Expression(s) => StmtTree::Expression(self.expr_tree(s.expr)),
            Stmt::Var(s) => StmtTree::Var(s.ident@, self.opt_expr_tree(s.initializer)),
            Stmt::Return(s) => StmtTree::Return(s.return_token@, self.opt_expr_tree(s.expr)),
            Stmt::Block(s) => StmtTree::Block(
                Seq::new(
                    s.statements@.len(),
                    |i: int|
                        if 0 <= i < s.statements@.len() && self.rank(s.statements@[i].raw) < r {
                            self.stmt_tree(s.statements@[i])
                        } else {
                            StmtTree::Missing
                        },
                ),
            ),
            Stmt::If(s) => if self.rank(s.then_branch.raw) < r {
                StmtTree::If(
                    self.expr_tree(s.condition),
                    Box::new(self.stmt_tree(s.then_branch)),
                    match s.else_branch {
                        Some(e) => if self.rank(e.raw) < r {
                            Some(Box::new(self.stmt_tree(e)))
                        } else {
                            None
                        },
                        None => None,
                    },
                )
            } else {
                StmtTree::Missing
            },
            Stmt::While(s) => if self.rank(s.body.raw) < r {
                StmtTree::While(self.expr_tree(s.condition), Box::new(self.stmt_tree(s.body)))
            } else {
                StmtTree::Missing
            },
            Stmt::Function(s) => StmtTree::Function(
                s.name@,
                Seq::new(s.params@.len(), |i: int| s.params@[i]@),
                Seq::new(
                    s.body@.len(),
                    |i: int|
                        if 0 <= i < s.body@.len() && self.rank(s.body@[i].raw) < r {
                            self.stmt_tree(s.body@[i])
                        } else {
                            StmtTree::Missing
                        },
                ),
            ),
        }
    }

    /// The statement `id` as a tree.
    pub open spec fn stmt_tree(&self, id: StmtId) -> StmtTree
        decreases self.rank(id.raw), 1int,
    {
        if !self.has_stmt(id) {
            StmtTree::Missing
        } else {
            self.stmt_node_tree(self.stmt(id), self.rank(id.raw))
        }
    }

    /// The statement `id` as a tree, if there is an id.
    pub open spec fn opt_stmt_tree(&self, id: Option<StmtId>) -> Option<StmtTree> {
        match id {
            Some(s) => Some(self.stmt_tree(s)),
            None => None,
        }
    }

    /// The statements `ids` as trees.
    #[verifier::opaque]
    pub open spec fn stmt_trees(&self, ids: Seq<StmtId>) -> Seq<StmtTree> {
        Seq::new(ids.len(), |i: int| self.stmt_tree(ids[i]))
    }

    /// An arena without nodes.
    pub fn new() -> (arena: Self)
        ensures
            arena.wf(),
            arena.count() == 0,
    {
        let store = store_new();
        proof {
            assert(stored(store).dom() =~= Set::<u64>::empty());
        }
        AstArena { store, order: Ghost(Map::empty()) }
    }

    /// The number of nodes.
    pub fn len(&self) -> (n: usize)
        ensures
            n == self.count(),
    {
        store_len(&self.store)
    }

    fn store_node(&mut self, node: AstNode) -> (raw: Option<u64>)
        requires
            old(self).wf(),
            match node {
                AstNode::Expr(e) => old(self).expr_closed(e, old(self).count()),
                AstNode::Stmt(s) => old(self).stmt_closed(s, old(self).count()),
            },
        ensures
            final(self).wf(),
            final(self).extends(old(self)),
            raw is Some <==> old(self).has_room(),
            raw is None ==> *final(self) == *old(self),
            raw matches Some(id) ==> is_key(id) && !old(self).nodes().dom().contains(id)
                && final(self).nodes() == old(self).nodes().insert(id, node) && final(self).rank(id)
                == old(self).count(),
    {
        let n = store_len(&self.store);
        if n >= MAX_NODES {
            return None;
        }
        let ghost before = *self;
        let id = store_insert(&mut self.store, node);
        proof {
            self.order@ = self.order@.insert(id, before.count());
            assert(self.nodes().dom() =~= before.nodes().dom().insert(id));
            assert forall|raw: u64| #[trigger] self.nodes().dom().contains(raw)
                implies self.rank(raw)
                < self.count() && match self.nodes()[raw] {
                AstNode::Expr(e) => self.expr_closed(e, self.rank(raw)),
                AstNode::Stmt(s) => self.stmt_closed(s, self.rank(raw)),
            } by {
                if raw != id {
                    assert(before.nodes().dom().contains(raw));
                    match before.nodes()[raw] {
                        AstNode::Expr(e) => {
                            assert(before.expr_closed(e, before.rank(raw)));
                            assert forall|i: int| 0 <= i < e.children().len() implies self.has_expr(
                                #[trigger] e.children()[i],
                            ) && self.rank(e.children()[i].raw) < self.rank(raw) by {
                                assert(before.has_expr(e.children()[i]));
                            }
                        },
                        AstNode::Stmt(s) => {
                            assert(before.stmt_closed(s, before.rank(raw)));
                            assert forall|i: int| 0 <= i < s.exprs().len() implies self.has_expr(
                                #[trigger] s.exprs()[i],
                            ) && self.rank(s.exprs()[i].raw) < self.rank(raw) by {
                                assert(before.has_expr(s.exprs()[i]));
                            }
                            assert forall|i: int| 0 <= i < s.children().len() implies self.has_stmt(
                                #[trigger] s.children()[i],
                            ) && self.rank(s.children()[i].raw) < self.rank(raw) by {
                                assert(before.has_stmt(s.children()[i]));
                            }
                        },
                    }
                } else {
                    match node {
                        AstNode::Expr(e) => {
                            assert forall|i: int| 0 <= i < e.children().len() implies self.has_expr(
                                #[trigger] e.children()[i],
                            ) && self.rank(e.children()[i].raw) < self.rank(raw) by {
                                assert(before.has_expr(e.children()[i]));
                            }
                        },
                        AstNode::Stmt(s) => {
                            assert forall|i: int| 0 <= i < s.exprs().len() implies self.has_expr(
                                #[trigger] s.exprs()[i],
                            ) && self.rank(s.exprs()[i].raw) < self.rank(raw) by {
                                assert(before.has_expr(s.exprs()[i]));
                            }
                            assert forall|i: int| 0 <= i < s.children().len() implies self.has_stmt(
                                #[trigger] s.children()[i],
                            ) && self.rank(s.children()[i].raw) < self.rank(raw) by {
                                assert(before.has_stmt(s.children()[i]));
                            }
                        },
                    }
                }
            }
        }
        Some(id)
    }

    /// Stores `expr` and returns its id, or nothing if the arena is full.
    pub fn alloc_expr(&mut self, expr: Expr) -> (id: Option<ExprId>)
        requires
            old(self).wf(),
            old(self).expr_closed(expr, old(self).count()),
        ensures
            final(self).wf(),
            final(self).extends(old(self)),
            id is Some <==> old(self).has_room(),
            id is None ==> *final(self) == *old(self),
            id matches Some(e) ==> !old(self).nodes().dom().contains(e.raw)
                && final(self).has_expr(e)
                && final(self).expr(e) == expr && final(self).count() == old(self).count() + 1
                && final(self).rank(e.raw) == old(self).count() && final(self).expr_tree(e) == old(
                self,
            ).node_tree(expr, old(self).count()),
    {
        let ghost before = *self;
        match self.store_node(AstNode::Expr(expr)) {
            Some(raw) => {
                proof {
                    lemma_node_tree_stable(&before, self, expr, before.count(), before.count());
                }
                Some(ExprId { raw })
            },
            None => None,
        }
    }

    /// Stores `stmt` and returns its id, or nothing if the arena is full.
    pub fn alloc_stmt(&mut self, stmt: Stmt) -> (id: Option<StmtId>)
        requires
            old(self).wf(),
            old(self).stmt_closed(stmt, old(self).count()),
        ensures
            final(self).wf(),
            final(self).extends(old(self)),
            id is Some <==> old(self).has_room(),
            id is None ==> *final(self) == *old(self),
            id matches Some(s) ==> !old(self).nodes().dom().contains(s.raw)
                && final(self).has_stmt(s)
                && final(self).stmt(s) == stmt && final(self).count() == old(self).count() + 1
                && final(self).rank(s.raw) == old(self).count() && final(self).stmt_tree(s) == old(
                self,
            ).stmt_node_tree(stmt, old(self).count()),
    {
        let ghost before = *self;
        match self.store_node(AstNode::Stmt(stmt)) {
            Some(raw) => {
                proof {
                    lemma_stmt_node_tree_stable(&before, self, stmt, before.count(), before.count());
                }
                Some(StmtId { raw })
            },
            None => None,
        }
    }

    /// The expression that `id` names, if it names one.
    pub fn get_expr(&self, id: ExprId) -> (e: Option<&Expr>)
        ensures
            e is Some <==> self.has_expr(id),
            e matches Some(found) ==> *found == self.expr(id),
    {
        if id.raw & 0x1_0000_0000 == 0 {
            return None;
        }
        let raw = id.raw;
        assert(raw | 0x1_0000_0000 == raw) by (bit_vector)
            requires
                raw & 0x1_0000_0000 != 0,
        ;
        match store_get(&self.store, raw) {
            Some(AstNode::Expr(e)) => Some(e),
            _ => None,
        }
    }

    /// The statement that `id` names, if it names one.
    pub fn get_stmt(&self, id: StmtId) -> (s: Option<&Stmt>)
        ensures
            s is Some <==> self.has_stmt(id),
            s matches Some(found) ==> *found == self.stmt(id),
    {
        if id.raw & 0x1_0000_0000 == 0 {
            return None;
        }
        let raw = id.raw;
        assert(raw | 0x1_0000_0000 == raw) by (bit_vector)
            requires
                raw & 0x1_0000_0000 != 0,
        ;
        match store_get(&self.store, raw) {
            Some(AstNode::Stmt(s)) => Some(s),
            _ => None,
        }
    }
}

/// Growing an arena is transitive.
pub proof fn lemma_extends_trans(a: &AstArena, b: &AstArena, c: &AstArena)
    requires
        b.extends(a),
        c.extends(b),
    ensures
        c.extends(a),
{
}

/// An arena has grown into itself.
pub proof fn lemma_extends_refl(a: &AstArena)
    ensures
        a.extends(a),
{
}

/// An arena that has grown holds no fewer nodes, so it has room only if it
/// had room before.
pub proof fn lemma_extends_count(before: &AstArena, after: &AstArena)
    requires
        after.extends(before),
    ensures
        before.count() <= after.count(),
        after.has_room() ==> before.has_room(),
{
}

/// In a sound arena every part of an expression is an expression that was
/// stored before it.
pub proof fn lemma_expr_parts(arena: &AstArena, id: ExprId)
    requires
        arena.wf(),
        arena.has_expr(id),
    ensures
        arena.rank(id.raw) < arena.count(),
        arena.expr_closed(arena.expr(id), arena.rank(id.raw)),
{
    assert(arena.nodes().dom().contains(id.raw));
}

/// In a sound arena every part of a statement is a node of the right sort
/// that was stored before it.
pub proof fn lemma_stmt_parts(arena: &AstArena, id: StmtId)
    requires
        arena.wf(),
        arena.has_stmt(id),
    ensures
        arena.rank(id.raw) < arena.count(),
        arena.stmt_closed(arena.stmt(id), arena.rank(id.raw)),
{
    assert(arena.nodes().dom().contains(id.raw));
}

/// A node whose parts are in a sound arena reads as the same tree in every
/// arena that the first has grown into.
pub proof fn lemma_node_tree_stable(before: &AstArena, after: &AstArena, e: Expr, r: nat, r2: nat)
    requires
        before.wf(),
        after.extends(before),
        before.expr_closed(e, r),
        r <= r2,
    ensures
        after.expr_closed(e, r2),
        after.node_tree(e, r2) == before.node_tree(e, r),
    decreases r, 0int,
{
    assert forall|i: int| 0 <= i < e.children().len() implies after.has_expr(
        #[trigger] e.children()[i],
    ) && after.expr_tree(e.children()[i]) == before.expr_tree(e.children()[i]) && before.rank(
        e.children()[i].raw,
    ) < r && after.rank(e.children()[i].raw) == before.rank(e.children()[i].raw) by {
        let c = e.children()[i];
        assert(before.has_expr(c));
        lemma_expr_tree_stable(before, after, c);
    }
    match e {
        Expr::Literal(_) => {},
        Expr::Variable(_) => {},
        Expr::Grouping(g) => {
            assert(e.children()[0] == g.0);
        },
        Expr::Unary(u) => {
            assert(e.children()[0] == u.right);
        },
        Expr::Assign(a) => {
            assert(e.children()[0] == a.value);
        },
        Expr::Binary(b) => {
            assert(e.children()[0] == b.left);
            assert(e.children()[1] == b.right);
        },
        Expr::Logical(b) => {
            assert(e.children()[0] == b.left);
            assert(e.children()[1] == b.right);
        },
        Expr::Call(c) => {
            assert(e.children()[0] == c.callee);
            assert forall|i: int| 0 <= i < c.args@.len() implies after.expr_tree(c.args@[i])
                == before.expr_tree(c.args@[i]) && before.rank(c.args@[i].raw) < r && after.rank(
                c.args@[i].raw,
            ) == before.rank(c.args@[i].raw) by {
                assert(e.children()[i + 1] == c.args@[i]);
            }
            assert(after.node_tree(e, r2)->Call_2 =~= before.node_tree(e, r)->Call_2);
        },
    }
}

/// An expression of a sound arena reads as the same tree in every arena
/// that the first has grown into.
pub proof fn lemma_expr_tree_stable(before: &AstArena, after: &AstArena, id: ExprId)
    requires
        before.wf(),
        after.extends(before),
        before.has_expr(id),
    ensures
        after.has_expr(id),
        after.expr(id) == before.expr(id),
        after.rank(id.raw) == before.rank(id.raw),
        after.expr_tree(id) == before.expr_tree(id),
    decreases before.rank(id.raw), 1int,
{
    assert(before.nodes().dom().contains(id.raw));
    lemma_node_tree_stable(
        before,
        after,
        before.expr(id),
        before.rank(id.raw),
        before.rank(id.raw),
    );
}

/// A statement whose parts are in a sound arena reads as the same tree in
/// every arena that the first has grown into.
pub proof fn lemma_stmt_node_tree_stable(
    before: &AstArena,
    after: &AstArena,
    s: Stmt,
    r: nat,
    r2: nat,
)
    requires
        before.wf(),
        after.extends(before),
        before.stmt_closed(s, r),
        r <= r2,
    ensures
        after.stmt_closed(s, r2),
        after.stmt_node_tree(s, r2) == before.stmt_node_tree(s, r),
    decreases r, 0int,
{
    assert forall|i: int| 0 <= i < s.exprs().len() implies after.has_expr(#[trigger] s.exprs()[i])
        && after.expr_tree(s.exprs()[i]) == before.expr_tree(s.exprs()[i]) && after.rank(
        s.exprs()[i].raw,
    ) == before.rank(s.exprs()[i].raw) by {
        assert(before.has_expr(s.exprs()[i]));
        lemma_expr_tree_stable(before, after, s.exprs()[i]);
    }
    assert forall|i: int| 0 <= i < s.children().len() implies after.has_stmt(
        #[trigger] s.children()[i],
    ) && after.stmt_tree(s.children()[i]) == before.stmt_tree(s.children()[i]) && before.rank(
        s.children()[i].raw,
    ) < r && after.rank(s.children()[i].raw) == before.rank(s.children()[i].raw) by {
        let c = s.children()[i];
        assert(before.has_stmt(c));
        lemma_stmt_tree_stable(before, after, c);
    }
    match s {
        Stmt::Print(p) => {
            assert(s.exprs()[0] == p.expr);
        },
        Stmt::Expression(p) => {
            assert(s.exprs()[0] == p.expr);
        },
        Stmt::Var(v) => {
            if v.initializer is Some {
                assert(s.exprs()[0] == v.initializer->0);
            }
        },
        Stmt::Return(v) => {
            if v.expr is Some {
                assert(s.exprs()[0] == v.expr->0);
            }
        },
        Stmt::Block(b) => {
            assert(after.stmt_node_tree(s, r2)->Block_0 =~= before.stmt_node_tree(s, r)->Block_0);
        },
        Stmt::If(c) => {
            assert(s.exprs()[0] == c.condition);
            assert(s.children()[0] == c.then_branch);
            if c.else_branch is Some {
                assert(s.children()[1] == c.else_branch->0);
            }
        },
        Stmt::While(w) => {
            assert(s.exprs()[0] == w.condition);
            assert(s.children()[0] == w.body);
        },
        Stmt::Function(f) => {
            assert(after.stmt_node_tree(s, r2)->Function_2 =~= before.stmt_node_tree(
                s,
                r,
            )->Function_2);
        },
    }
}

/// A statement of a sound arena reads as the same tree in every arena that
/// the first has grown into.
pub proof fn lemma_stmt_tree_stable(before: &AstArena, after: &AstArena, id: StmtId)
    requires
        before.wf(),
        after.extends(before),
        before.has_stmt(id),
    ensures
        after.has_stmt(id),
        after.stmt(id) == before.stmt(id),
        after.rank(id.raw) == before.rank(id.raw),
        after.stmt_tree(id) == before.stmt_tree(id),
    decreases before.rank(id.raw), 1int,
{
    assert(before.nodes().dom().contains(id.raw));
    lemma_stmt_node_tree_stable(
        before,
        after,
        before.stmt(id),
        before.rank(id.raw),
        before.rank(id.raw),
    );
}

} // verus!
