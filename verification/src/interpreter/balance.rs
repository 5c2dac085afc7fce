//! Why every scope that is opened is closed again.

use crate::chain::SharedNode;
use crate::environment::Environment;
use crate::interpreter::closes_scope;
use crate::interpreter::unwound;
use crate::interpreter::Frame;
use crate::interpreter::Interpreter;
use vstd::prelude::*;

verus! {

/// Two frames owe the same: nothing, the scope of a block, or the scope of
/// a call and the way back to the same caller.
pub open spec fn same_debt(f: Frame, g: Frame) -> bool {
    match (f, g) {
        (Frame::Block { .. }, Frame::Block { .. }) => true,
        (Frame::Body { caller: a, .. }, Frame::Body { caller: b, .. }) => a == b,
        _ => !closes_scope(f) && !closes_scope(g),
    }
}

/// Frames that owe the same unwind to the same scope.
pub proof fn lemma_unwound_same_debt(
    parents: Seq<Option<SharedNode>>,
    current: SharedNode,
    kont: Seq<Frame>,
    f: Frame,
    g: Frame,
)
    requires
        same_debt(f, g),
    ensures
        unwound(parents, current, kont.push(f)) == unwound(parents, current, kont.push(g)),
{
    assert(kont.push(f).drop_last() =~= kont);
    assert(kont.push(g).drop_last() =~= kont);
}

/// A scope that is added to the store changes nothing about what
/// unwinding leads to.
pub proof fn lemma_unwound_grow(
    parents: Seq<Option<SharedNode>>,
    extra: Option<SharedNode>,
    current: SharedNode,
    kont: Seq<Frame>,
)
    requires
        unwound(parents, current, kont) is Some,
    ensures
        unwound(parents.push(extra), current, kont) == unwound(parents, current, kont),
    decreases kont.len(),
{
    if kont.len() > 0 {
        match kont.last() {
            Frame::Block { .. } => {
                lemma_unwound_grow(
                    parents,
                    extra,
                    parents[current.index as int]->0,
                    kont.drop_last(),
                );
            },
            Frame::Body { caller, .. } => {
                lemma_unwound_grow(parents, extra, caller, kont.drop_last());
            },
            _ => {
                lemma_unwound_grow(parents, extra, current, kont.drop_last());
            },
        }
    }
}

/// The scope around each scope of `env`.
pub open spec fn parents_of(env: &Environment) -> Seq<Option<SharedNode>> {
    Seq::new(env.chain.nodes@.len(), |i: int| env.chain.nodes@[i].parent)
}

/// Binding a name changes no scope's place in the store.
pub proof fn lemma_changed_keeps_parents(
    before: &Environment,
    after: &Environment,
    node: SharedNode,
    map: Map<Seq<char>, crate::object::Object>,
)
    requires
        after.changed_at(before, node, map),
    ensures
        parents_of(after) == parents_of(before),
        after.current() == before.current(),
        after.global == before.global,
{
    assert(parents_of(after) =~= parents_of(before));
}

/// Opening a scope adds the new scope, inside the one that was current, to
/// the store.
pub proof fn lemma_opened_parents(before: &Environment, after: &Environment)
    requires
        before.wf(),
        after.opened_from(before),
    ensures
        parents_of(after) == parents_of(before).push(Some(before.current())),
{
    assert(parents_of(after) =~= parents_of(before).push(Some(before.current())));
}

impl Interpreter {
    /// What unwinding the continuation leads to.
    pub open spec fn unwinds_to(&self) -> Option<SharedNode> {
        unwound(self.parents(), self.env.current(), self.kont@)
    }
}

} // verus!
