//! A chain of nodes that share their tails.
//!
//! Every node lives in one store and names its parent by position, so that
//! many chains can end in the same nodes, and a node stays where it is for as
//! long as the store lives.

use vstd::prelude::*;

verus! {

/// A handle to a node of a chain's store.
#[derive(Debug, Clone, Copy, PartialEq, Eq, Structural)]
pub struct SharedNode {
    pub index: usize,
}

/// A value and the node below it.
pub struct Node<T> {
    pub value: T,
    pub parent: Option<SharedNode>,
}

/// A store of nodes and the node at which the current chain ends.
pub struct Chain<T> {
    pub nodes: Vec<Node<T>>,
    pub end: Option<SharedNode>,
}

impl SharedNode {
    pub fn new(index: usize) -> (n: Self)
        ensures
            n.index == index,
    {
        SharedNode { index }
    }
}

impl SharedNode {
    /// The value of this node in `chain`.
    pub fn value<'a, T>(&self, chain: &'a Chain<T>) -> (v: &'a T)
        requires
            chain.holds(*self),
        ensures
            *v == chain.nodes[self.index as int].value,
    {
        &chain.nodes[self.index].value
    }
}

impl<T> Chain<T> {
    /// Every handle in the store points at an older node.
    pub open spec fn wf(&self) -> bool {
        &&& forall|i: int|
            0 <= i < self.nodes.len() ==> match (#[trigger] self.nodes[i]).parent {
                Some(p) => p.index < i,
                None => true,
            }
        &&& match self.end {
            Some(e) => e.index < self.nodes.len(),
            None => true,
        }
    }

    /// Whether `node` is a node of this store.
    pub open spec fn holds(&self, node: SharedNode) -> bool {
        node.index < self.nodes.len()
    }

    /// The nodes from `from` down to the root of its chain, the nearest first.
    pub open spec fn path(&self, from: Option<SharedNode>) -> Seq<SharedNode>
        decreases
            (match from {
                Some(n) => n.index + 1,
                None => 0,
            }),
    {
        match from {
            Some(n) => {
                if n.index < self.nodes.len() {
                    match self.nodes[n.index as int].parent {
                        Some(p) => {
                            if p.index < n.index {
                                seq![n] + self.path(Some(p))
                            } else {
                                seq![n]
                            }
                        },
                        None => seq![n],
                    }
                } else {
                    Seq::empty()
                }
            },
            None => Seq::empty(),
        }
    }

    /// The nodes of the current chain, the newest first.
    pub open spec fn current(&self) -> Seq<SharedNode> {
        self.path(self.end)
    }

    pub fn new() -> (c: Self)
        ensures
            c.wf(),
            c.nodes@.len() == 0,
            c.end is None,
    {
        Chain { nodes: Vec::new(), end: None }
    }

    /// Puts a new node with `value` on top of the current chain.
    pub fn push(&mut self, value: T)
        requires
            old(self).wf(),
        ensures
            final(self).wf(),
            final(self).nodes@ == old(self).nodes@.push(Node { value, parent: old(self).end }),
            final(self).end == Some(SharedNode { index: old(self).nodes.len() }),
    {
        let index = self.nodes.len();
        self.nodes.push(Node { value, parent: self.end });
        self.end = Some(SharedNode { index });
    }

    /// Takes the top node off the current chain, which then ends at that
    /// node's parent. The node stays in the store.
    pub fn pop(&mut self) -> (top: Option<SharedNode>)
        requires
            old(self).wf(),
        ensures
            final(self).wf(),
            final(self).nodes == old(self).nodes,
            top == old(self).end,
            final(self).end == (match old(self).end {
                Some(e) => old(self).nodes[e.index as int].parent,
                None => None,
            }),
    {
        let top = self.end;
        match top {
            Some(e) => {
                self.end = self.nodes[e.index].parent;
            },
            None => {},
        }
        top
    }

    /// The value of the top node of the current chain.
    pub fn head(&self) -> (v: Option<&T>)
        requires
            self.wf(),
        ensures
            v == (match self.end {
                Some(e) => Some(&self.nodes[e.index as int].value),
                None => None,
            }),
    {
        match self.end {
            Some(e) => Some(&self.nodes[e.index].value),
            None => None,
        }
    }

    /// The top node of the current chain.
    pub fn head_node(&self) -> (n: Option<SharedNode>)
        ensures
            n == self.end,
    {
        self.end
    }

    /// The value of `node`.
    pub fn value(&self, node: SharedNode) -> (v: &T)
        requires
            self.holds(node),
        ensures
            *v == self.nodes[node.index as int].value,
    {
        &self.nodes[node.index].value
    }

    /// The value of `node`, to be changed in place.
    pub fn value_mut(&mut self, node: SharedNode) -> (v: &mut T)
        requires
            old(self).holds(node),
        ensures
            *v == old(self).nodes[node.index as int].value,
            final(self).end == old(self).end,
            final(self).nodes@.len() == old(self).nodes@.len(),
            final(self).nodes[node.index as int].value == *final(v),
            final(self).nodes[node.index as int].parent
                == old(self).nodes[node.index as int].parent,
            forall|i: int|
                0 <= i < old(self).nodes.len() && i != node.index ==> final(self).nodes[i] == old(
                    self,
                ).nodes[i],
    {
        &mut self.nodes[node.index].value
    }

    /// A walk over the current chain, from its top down.
    pub fn iter(&self) -> (it: ChainIter)
        ensures
            it.current == self.end,
    {
        ChainIter { current: self.end }
    }
}

/// A position in a walk down a chain.
pub struct ChainIter {
    pub current: Option<SharedNode>,
}

impl ChainIter {
    /// The node at the walk's position, after which the walk stands at that
    /// node's parent; `None` once the walk is past the root.
    pub fn next<T>(&mut self, chain: &Chain<T>) -> (n: Option<SharedNode>)
        requires
            chain.wf(),
            old(self).current matches Some(c) ==> chain.holds(c),
        ensures
            n == old(self).current,
            final(self).current == (match old(self).current {
                Some(c) => chain.nodes[c.index as int].parent,
                None => None,
            }),
            final(self).current matches Some(c) ==> chain.holds(c),
            chain.path(old(self).current) == (match n {
                Some(c) => seq![c] + chain.path(final(self).current),
                None => Seq::empty(),
            }),
    {
        let n = self.current;
        match n {
            Some(c) => {
                self.current = chain.nodes[c.index].parent;
                proof {
                    assert(chain.path(Some(c)) =~= seq![c] + chain.path(self.current));
                }
            },
            None => {},
        }
        n
    }
}

} // verus!
