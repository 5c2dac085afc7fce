//! The scopes of a running program.
//!
//! A scope maps names to values and knows the scope around it. Scopes are
//! never removed: a function value names the scope in which it was declared,
//! and finds it again whenever it is called.

use crate::chain::Chain;
use crate::chain::SharedNode;
use crate::object::Object;
use crate::text::push_str;
use vstd::prelude::*;
use vstd::string::StringExecFns;

verus! {

/// A name and its value.
pub struct Binding {
    pub name: String,
    pub value: Object,
}

/// The bindings of one scope. A name is bound at most once.
pub struct ScopedEnvironment {
    pub values: Vec<Binding>,
}

/// What a list of bindings maps each name to, where a later binding of a
/// name hides an earlier one.
pub open spec fn bound(entries: Seq<Binding>) -> Map<Seq<char>, Object>
    decreases entries.len(),
{
    if entries.len() == 0 {
        Map::empty()
    } else {
        bound(entries.drop_last()).insert(entries.last().name@, entries.last().value)
    }
}

/// No name is bound twice.
pub open spec fn distinct(entries: Seq<Binding>) -> bool {
    forall|i: int, j: int|
        0 <= i < j < entries.len()
            ==> (#[trigger] entries[i]).name@ != (#[trigger] entries[j]).name@
}

/// A name that no binding binds is not in the map, and a name that one
/// binds is mapped to that binding's value.
pub proof fn lemma_bound(entries: Seq<Binding>, name: Seq<char>)
    requires
        distinct(entries),
    ensures
        bound(entries).dom().contains(name) <==> exists|i: int|
            0 <= i < entries.len() && (#[trigger] entries[i]).name@ == name,
        forall|i: int|
            0 <= i < entries.len() && (#[trigger] entries[i]).name@ == name ==> bound(entries)[name]
                == entries[i].value,
    decreases entries.len(),
{
    if entries.len() > 0 {
        let rest = entries.drop_last();
        lemma_bound(rest, name);
        if entries.last().name@ == name {
            assert(entries[entries.len() - 1].name@ == name);
        } else {
            if bound(rest).dom().contains(name) {
                let i = choose|i: int| 0 <= i < rest.len() && (#[trigger] rest[i]).name@ == name;
                assert(entries[i].name@ == name);
            }
            assert forall|i: int|
                0 <= i < entries.len() && (#[trigger] entries[i]).name@ == name implies bound(
                entries,
            )[name] == entries[i].value by {
                assert(rest[i] == entries[i]);
            }
        }
        if exists|i: int| 0 <= i < entries.len() && (#[trigger] entries[i]).name@ == name {
            let i = choose|i: int| 0 <= i < entries.len() && (#[trigger] entries[i]).name@ == name;
            if i < rest.len() {
                assert(rest[i].name@ == name);
            }
        }
    }
}

/// Replacing the value of a binding changes the map at its name only.
pub proof fn lemma_bound_update(entries: Seq<Binding>, i: int, value: Object)
    requires
        distinct(entries),
        0 <= i < entries.len(),
    ensures
        distinct(entries.update(i, Binding { name: entries[i].name, value })),
        bound(entries.update(i, Binding { name: entries[i].name, value })) == bound(entries).insert(
            entries[i].name@,
            value,
        ),
    decreases entries.len(),
{
    let updated = entries.update(i, Binding { name: entries[i].name, value });
    assert forall|a: int, b: int| 0 <= a < b < updated.len() implies (#[trigger] updated[a]).name@
        != (#[trigger] updated[b]).name@ by {
        assert(entries[a].name@ != entries[b].name@);
    }
    let rest = entries.drop_last();
    if i == entries.len() - 1 {
        assert(updated.drop_last() =~= rest);
        assert(bound(updated) =~= bound(entries).insert(entries[i].name@, value));
    } else {
        assert(distinct(rest)) by {
            assert forall|a: int, b: int| 0 <= a < b < rest.len() implies (#[trigger] rest[a]).name@
                != (#[trigger] rest[b]).name@ by {
                assert(entries[a].name@ != entries[b].name@);
            }
        }
        lemma_bound_update(rest, i, value);
        assert(updated.drop_last() =~= rest.update(i, Binding { name: entries[i].name, value }));
        assert(entries[i].name@ != entries[entries.len() - 1].name@);
        assert(bound(updated) =~= bound(entries).insert(entries[i].name@, value));
    }
}

/// A name was looked for in vain.
#[derive(Debug)]
pub enum EnvError {
    UndefinedVar(String),
}

impl ScopedEnvironment {
    /// What the scope maps each name to.
    pub open spec fn map(&self) -> Map<Seq<char>, Object> {
        bound(self.values@)
    }

    /// No name is bound twice.
    pub open spec fn wf(&self) -> bool {
        distinct(self.values@)
    }

    pub fn new() -> (s: Self)
        ensures
            s.wf(),
            s.map() == Map::<Seq<char>, Object>::empty(),
    {
        ScopedEnvironment { values: Vec::new() }
    }

    /// The index of the binding of `name`, if it is bound.
    fn find(&self, name: &str) -> (found: Option<usize>)
        requires
            self.wf(),
        ensures
            match found {
                Some(i) => i < self.values.len() && self.values[i as int].name@ == name@
                    && self.map().dom().contains(name@) && self.map()[name@]
                    == self.values[i as int].value,
                None => !self.map().dom().contains(name@),
            },
    {
        let key = String::from_str(name);
        let mut i: usize = 0;
        while i < self.values.len()
            invariant
                self.wf(),
                i <= self.values.len(),
                key@ == name@,
                forall|j: int| 0 <= j < i ==> (#[trigger] self.values[j]).name@ != name@,
            decreases self.values.len() - i,
        {
            if self.values[i].name == key {
                proof {
                    lemma_bound(self.values@, name@);
                    assert(self.values@[i as int].name@ == name@);
                }
                return Some(i);
            }
            i += 1;
        }
        proof {
            lemma_bound(self.values@, name@);
        }
        None
    }

    /// Binds `name` to `object`, in place of what it was bound to.
    pub fn define(&mut self, name: String, object: Object)
        requires
            old(self).wf(),
        ensures
            final(self).wf(),
            final(self).map() == old(self).map().insert(name@, object),
    {
        match self.find(name.as_str()) {
            Some(i) => {
                proof {
                    lemma_bound_update(self.values@, i as int, object);
                }
                let ghost before = self.values@;
                let held = self.values[i].name.clone();
                self.values.set(i, Binding { name: held, value: object });
                assert(self.values@ =~= before.update(
                    i as int,
                    Binding { name: before[i as int].name, value: object },
                ));
            },
            None => {
                proof {
                    lemma_bound(self.values@, name@);
                }
                let ghost before = self.values@;
                self.values.push(Binding { name, value: object });
                assert(self.values@.drop_last() =~= before);
            },
        }
    }

    /// The value that `name` is bound to.
    pub fn get(&self, name: &str) -> (v: Option<Object>)
        requires
            self.wf(),
        ensures
            v == (if self.map().dom().contains(name@) {
                Some(self.map()[name@])
            } else {
                None
            }),
    {
        match self.find(name) {
            Some(i) => Some(self.values[i].value.clone()),
            None => None,
        }
    }

    /// Binds `name`, which must be bound, to `object`, and returns `object`.
    pub fn assign(&mut self, name: &str, object: Object) -> (v: Option<Object>)
        requires
            old(self).wf(),
        ensures
            final(self).wf(),
            old(self).map().dom().contains(name@) ==> v == Some(object) && final(self).map()
                == old(self).map().insert(name@, object),
            !old(self).map().dom().contains(name@) ==> v is None && final(self).values@
                == old(self).values@,
    {
        match self.find(name) {
            Some(i) => {
                proof {
                    lemma_bound_update(self.values@, i as int, object);
                }
                let ghost before = self.values@;
                let held = self.values[i].name.clone();
                let result = object.clone();
                self.values.set(i, Binding { name: held, value: object });
                assert(self.values@ =~= before.update(
                    i as int,
                    Binding { name: before[i as int].name, value: object },
                ));
                Some(result)
            },
            None => None,
        }
    }
}

/// The scopes of a program: the store of every scope ever opened, the scope
/// that is current, and the global scope at the root of every chain.
pub struct Environment {
    pub chain: Chain<ScopedEnvironment>,
    pub global: SharedNode,
}

impl Environment {
    /// The scope at the store's position `i` maps names as `map` says.
    pub open spec fn scope(&self, node: SharedNode) -> Map<Seq<char>, Object> {
        self.chain.nodes[node.index as int].value.map()
    }

    /// The current scope.
    pub open spec fn current(&self) -> SharedNode {
        self.chain.end->0
    }

    /// The scope around `node`, if it is not the root.
    pub open spec fn parent(&self, node: SharedNode) -> Option<SharedNode> {
        self.chain.nodes[node.index as int].parent
    }

    /// The scopes from the current one out to the root.
    pub open spec fn scopes(&self) -> Seq<SharedNode> {
        self.chain.current()
    }

    /// The number of scopes from the current one out to the root.
    pub open spec fn depth(&self) -> nat {
        self.scopes().len()
    }

    /// The store is sound, there is a current scope, the global scope is the
    /// first scope of the store and has no scope around it, every other
    /// scope has a scope around it, and every scope binds each name at most
    /// once.
    pub open spec fn wf(&self) -> bool {
        &&& self.chain.wf()
        &&& self.chain.end is Some
        &&& self.global.index == 0
        &&& self.chain.nodes.len() > 0
        &&& self.chain.nodes[0].parent is None
        &&& forall|i: int| 0 < i < self.chain.nodes.len()
            ==> (#[trigger] self.chain.nodes[i]).parent is Some
        &&& forall|i: int| 0 <= i < self.chain.nodes.len()
            ==> (#[trigger] self.chain.nodes[i]).value.wf()
    }

    /// The scopes from `node` out to the root, the nearest first.
    pub open spec fn scopes_from(&self, node: SharedNode) -> Seq<SharedNode> {
        self.chain.path(Some(node))
    }

    /// The value of `name` in the nearest of the scopes `path` that binds it.
    pub open spec fn lookup(&self, path: Seq<SharedNode>, name: Seq<char>) -> Option<Object>
        decreases path.len(),
    {
        if path.len() == 0 {
            None
        } else if self.scope(path[0]).dom().contains(name) {
            Some(self.scope(path[0])[name])
        } else {
            self.lookup(path.drop_first(), name)
        }
    }

    /// The nearest of the scopes `path` that binds `name`.
    pub open spec fn binder(&self, path: Seq<SharedNode>, name: Seq<char>) -> Option<SharedNode>
        decreases path.len(),
    {
        if path.len() == 0 {
            None
        } else if self.scope(path[0]).dom().contains(name) {
            Some(path[0])
        } else {
            self.binder(path.drop_first(), name)
        }
    }

    /// `self` holds the scopes of `before`, with the same bindings, and the
    /// same scope is current.
    pub open spec fn same_as(&self, before: &Environment) -> bool {
        &&& self.wf()
        &&& self.global == before.global
        &&& self.chain.end == before.chain.end
        &&& self.chain.nodes.len() == before.chain.nodes.len()
        &&& forall|i: int|
            0 <= i < self.chain.nodes.len() ==> (#[trigger] self.chain.nodes[i]).parent
                == before.chain.nodes[i].parent && self.chain.nodes[i].value.values@
                == before.chain.nodes[i].value.values@
    }

    /// `self` is `before` but for the scope `node`, which now maps names as `map` says.
    pub open spec fn changed_at(
        &self,
        before: &Environment,
        node: SharedNode,
        map: Map<Seq<char>, Object>,
    ) -> bool {
        &&& self.wf()
        &&& self.global == before.global
        &&& self.chain.end == before.chain.end
        &&& self.chain.nodes.len() == before.chain.nodes.len()
        &&& self.scope(node) == map
        &&& forall|i: int|
            0 <= i < self.chain.nodes.len() ==> (#[trigger] self.chain.nodes[i]).parent
                == before.chain.nodes[i].parent
        &&& forall|i: int|
            0 <= i < self.chain.nodes.len() && i != node.index ==> (#[trigger] self.chain.nodes[i])
                == before.chain.nodes[i]
    }

    /// `self` is `before` with a new, empty scope inside the scope that was
    /// current, and the new scope is current.
    pub open spec fn opened_from(&self, before: &Environment) -> bool {
        &&& self.wf()
        &&& self.global == before.global
        &&& self.chain.nodes@.len() == before.chain.nodes@.len() + 1
        &&& self.current().index == before.chain.nodes@.len()
        &&& self.parent(self.current()) == Some(before.current())
        &&& self.scope(self.current()) == Map::<Seq<char>, Object>::empty()
        &&& forall|i: int|
            0 <= i < before.chain.nodes.len() ==> (#[trigger] self.chain.nodes[i])
                == before.chain.nodes[i]
    }

    /// `self` is `before` with another scope current: the scope around the
    /// one that was current, or the same one if that is the root.
    pub open spec fn closed_from(&self, before: &Environment) -> bool {
        &&& self.wf()
        &&& self.global == before.global
        &&& self.chain.nodes == before.chain.nodes
        &&& self.current() == (match before.parent(before.current()) {
            Some(p) => p,
            None => before.current(),
        })
    }

    /// `self` is `before` with the scope `scope` current, or unchanged if
    /// the store does not hold `scope`.
    pub open spec fn entered_from(&self, before: &Environment, scope: SharedNode) -> bool {
        &&& self.wf()
        &&& self.global == before.global
        &&& self.chain.nodes == before.chain.nodes
        &&& self.current() == (if before.chain.holds(scope) {
            scope
        } else {
            before.current()
        })
    }

    /// An environment with nothing but an empty global scope.
    pub fn new() -> (env: Self)
        ensures
            env.wf(),
            env.current() == env.global,
            env.scope(env.global) == Map::<Seq<char>, Object>::empty(),
            env.scopes() == seq![env.global],
    {
        let mut chain = Chain::new();
        chain.push(ScopedEnvironment::new());
        let env = Environment { chain, global: SharedNode { index: 0 } };
        assert(env.chain.path(env.chain.end) =~= seq![env.global]);
        env
    }

    /// Opens an empty scope inside the current one and makes it current.
    pub fn push_scope(&mut self)
        requires
            old(self).wf(),
        ensures
            final(self).opened_from(old(self)),
    {
        self.chain.push(ScopedEnvironment::new());
    }

    /// Leaves the current scope for the one around it. The global scope is
    /// never left.
    pub fn pop_scope(&mut self)
        requires
            old(self).wf(),
        ensures
            final(self).closed_from(old(self)),
    {
        let current = match self.chain.end {
            Some(c) => c,
            None => {
                return ;
            },
        };
        match self.chain.nodes[current.index].parent {
            Some(_) => {
                self.chain.pop();
            },
            None => {},
        }
    }

    /// Makes `scope` the current scope and returns the scope that was
    /// current. A scope that the store does not hold changes nothing.
    pub fn enter(&mut self, scope: SharedNode) -> (left: SharedNode)
        requires
            old(self).wf(),
        ensures
            final(self).entered_from(old(self), scope),
            left == old(self).current(),
    {
        let left = match self.chain.end {
            Some(c) => c,
            None => self.global,
        };
        if scope.index < self.chain.nodes.len() {
            self.chain.end = Some(scope);
        }
        left
    }

    /// The current scope.
    pub fn current_scope(&self) -> (node: SharedNode)
        requires
            self.wf(),
        ensures
            node == self.current(),
            self.chain.holds(node),
    {
        match self.chain.end {
            Some(c) => c,
            None => self.global,
        }
    }

    /// The global scope.
    pub fn global_scope(&self) -> (node: SharedNode)
        requires
            self.wf(),
        ensures
            node == self.global,
            self.chain.holds(node),
    {
        self.global
    }

    /// Binds `name` to `object` in the scope `node`.
    fn define_in(&mut self, node: SharedNode, name: String, object: Object)
        requires
            old(self).wf(),
            old(self).chain.holds(node),
        ensures
            final(self).changed_at(old(self), node, old(self).scope(node).insert(name@, object)),
    {
        let scope = self.chain.value_mut(node);
        scope.define(name, object);
    }

    /// Binds `name` to `object` in the current scope, in place of what it was
    /// bound to there.
    pub fn define(&mut self, name: String, object: Object)
        requires
            old(self).wf(),
        ensures
            final(self).changed_at(
                old(self),
                old(self).current(),
                old(self).scope(old(self).current()).insert(name@, object),
            ),
    {
        let node = self.current_scope();
        self.define_in(node, name, object);
    }

    /// Binds `name` to `object` in the global scope.
    pub fn define_global(&mut self, name: String, object: Object)
        requires
            old(self).wf(),
        ensures
            final(self).changed_at(
                old(self),
                old(self).global,
                old(self).scope(old(self).global).insert(name@, object),
            ),
    {
        let node = self.global_scope();
        self.define_in(node, name, object);
    }

    /// The scope `depth` steps out from the current one, if there are that many.
    pub fn scope_at(&self, depth: usize) -> (node: Option<SharedNode>)
        requires
            self.wf(),
        ensures
            node == (if depth < self.scopes().len() {
                Some(self.scopes()[depth as int])
            } else {
                None
            }),
            node matches Some(n) ==> self.chain.holds(n),
    {
        let mut it = self.chain.iter();
        let mut left = depth;
        let ghost all = self.scopes();
        loop
            invariant
                self.wf(),
                all == self.scopes(),
                left <= depth,
                it.current matches Some(c) ==> self.chain.holds(c),
                self.chain.path(it.current) == all.skip(depth - left),
                depth - left <= all.len(),
            decreases left,
        {
            let ghost before = it.current;
            let node = it.next(&self.chain);
            match node {
                Some(n) => {
                    if left == 0 {
                        assert(all.skip(depth as int)[0] == n);
                        return Some(n);
                    }
                    assert(all.skip(depth - left).drop_first() =~= all.skip(depth - left + 1));
                    assert((seq![n] + self.chain.path(it.current)).drop_first()
                        =~= self.chain.path(it.current));
                    left = left - 1;
                },
                None => {
                    return None;
                },
            }
        }
    }

    /// The value of `name` in the scope `depth` steps out from the current one.
    pub fn get_at(&self, depth: usize, name: &str) -> (v: Option<Object>)
        requires
            self.wf(),
        ensures
            v == (if depth < self.scopes().len() && self.scope(
                self.scopes()[depth as int],
            ).dom().contains(name@) {
                Some(self.scope(self.scopes()[depth as int])[name@])
            } else {
                None
            }),
    {
        match self.scope_at(depth) {
            Some(node) => self.chain.value(node).get(name),
            None => None,
        }
    }

    /// The nearest scope, from the current one out, that binds `name`.
    pub fn find_binder(&self, name: &str) -> (node: Option<SharedNode>)
        requires
            self.wf(),
        ensures
            node == self.binder(self.scopes(), name@),
            node matches Some(n) ==> self.chain.holds(n) && self.scope(n).dom().contains(name@)
                && self.lookup(self.scopes(), name@) == Some(self.scope(n)[name@]),
            node is None ==> self.lookup(self.scopes(), name@) is None,
    {
        let mut it = self.chain.iter();
        let ghost all = self.scopes();
        loop
            invariant
                self.wf(),
                all == self.scopes(),
                it.current matches Some(c) ==> self.chain.holds(c),
                self.binder(self.chain.path(it.current), name@) == self.binder(all, name@),
                self.lookup(self.chain.path(it.current), name@) == self.lookup(all, name@),
            decreases
                    (match it.current {
                        Some(c) => c.index + 1,
                        None => 0,
                    }),
        {
            let ghost path = self.chain.path(it.current);
            match it.next(&self.chain) {
                Some(n) => {
                    assert(path.drop_first() =~= self.chain.path(it.current));
                    match self.chain.value(n).get(name) {
                        Some(_) => {
                            return Some(n);
                        },
                        None => {},
                    }
                },
                None => {
                    return None;
                },
            }
        }
    }

    /// The value of `name` in the nearest scope, from the current one out,
    /// that binds it.
    pub fn get(&self, name: &str) -> (v: Option<Object>)
        requires
            self.wf(),
        ensures
            v == self.lookup(self.scopes(), name@),
    {
        match self.find_binder(name) {
            Some(node) => self.chain.value(node).get(name),
            None => None,
        }
    }

    /// Binds `name` to `object` in the scope `node`, if it is bound there.
    fn assign_in(&mut self, node: SharedNode, name: &str, object: Object) -> (r: Result<
        Object,
        EnvError,
    >)
        requires
            old(self).wf(),
            old(self).chain.holds(node),
        ensures
            old(self).scope(node).dom().contains(name@) ==> r == Ok::<Object, EnvError>(object)
                && final(self).changed_at(
                old(self),
                node,
                old(self).scope(node).insert(name@, object),
            ),
            !old(self).scope(node).dom().contains(name@) ==> (r matches Err(
                EnvError::UndefinedVar(n),
            ) && n@ == name@) && final(self).same_as(old(self)),
    {
        let scope = self.chain.value_mut(node);
        match scope.assign(name, object) {
            Some(v) => Ok(v),
            None => Err(EnvError::UndefinedVar(String::from_str(name))),
        }
    }

    /// Binds `name` to `object` in the scope `depth` steps out from the
    /// current one, where it must be bound already.
    pub fn assign_at(&mut self, depth: usize, name: &str, object: Object) -> (r: Result<
        Object,
        EnvError,
    >)
        requires
            old(self).wf(),
        ensures
            ({
                let bound_there = depth < old(self).scopes().len() && old(self).scope(
                    old(self).scopes()[depth as int],
                ).dom().contains(name@);
                &&& bound_there ==> r == Ok::<Object, EnvError>(object) && final(self).changed_at(
                    old(self),
                    old(self).scopes()[depth as int],
                    old(self).scope(old(self).scopes()[depth as int]).insert(name@, object),
                )
                &&& !bound_there ==> (r matches Err(EnvError::UndefinedVar(n)) && n@ == name@)
                    && final(self).same_as(old(self))
            }),
    {
        match self.scope_at(depth) {
            Some(node) => self.assign_in(node, name, object),
            None => Err(EnvError::UndefinedVar(String::from_str(name))),
        }
    }

    /// Binds `name` to `object` in the nearest scope, from the current one
    /// out, that binds it already.
    pub fn assign(&mut self, name: &str, object: Object) -> (r: Result<Object, EnvError>)
        requires
            old(self).wf(),
        ensures
            match old(self).binder(old(self).scopes(), name@) {
                Some(node) => r == Ok::<Object, EnvError>(object) && final(self).changed_at(
                    old(self),
                    node,
                    old(self).scope(node).insert(name@, object),
                ),
                None => (r matches Err(EnvError::UndefinedVar(n)) && n@ == name@)
                    && final(self).same_as(old(self)),
            },
    {
        match self.find_binder(name) {
            Some(node) => self.assign_in(node, name, object),
            None => Err(EnvError::UndefinedVar(String::from_str(name))),
        }
    }
}

impl EnvError {
    /// What the error says.
    pub fn to_string(&self) -> (s: String)
        ensures
            s@ == "Undefined variable '"@ + self->0@ + "'."@,
    {
        match self {
            EnvError::UndefinedVar(name) => {
                let mut s = String::from_str("Undefined variable '");
                push_str(&mut s, name.as_str());
                push_str(&mut s, "'.");
                s
            },
        }
    }
}

/// Every chain of scopes ends in the global scope: the walk outwards from
/// any scope of the store is not empty, begins at that scope, and has the
/// global scope as its last.
pub proof fn lemma_chain_ends_at_global(env: &Environment, node: SharedNode)
    requires
        env.wf(),
        env.chain.holds(node),
    ensures
        env.scopes_from(node).len() > 0,
        env.scopes_from(node)[0] == node,
        env.scopes_from(node).last() == env.global,
    decreases node.index,
{
    match env.chain.nodes[node.index as int].parent {
        Some(p) => {
            lemma_chain_ends_at_global(env, p);
            assert(env.scopes_from(node) =~= seq![node] + env.scopes_from(p));
        },
        None => {
            assert(node.index == 0);
            assert(env.scopes_from(node) =~= seq![node]);
        },
    }
}

/// The scopes from the current one outwards end in the global scope: a
/// name that is bound only there is found from everywhere.
pub proof fn lemma_scopes_end_at_global(env: &Environment)
    requires
        env.wf(),
    ensures
        env.scopes().len() > 0,
        env.scopes()[0] == env.current(),
        env.scopes().last() == env.global,
{
    lemma_chain_ends_at_global(env, env.current());
}

/// A name that the last of the scopes `path` binds is found in `path`:
/// in that scope, if no scope before it binds the name.
pub proof fn lemma_lookup_reaches(env: &Environment, path: Seq<SharedNode>, name: Seq<char>)
    requires
        path.len() > 0,
        env.scope(path.last()).dom().contains(name),
    ensures
        env.lookup(path, name) is Some,
        (forall|i: int| 0 <= i < path.len() - 1 ==> !env.scope(#[trigger] path[i]).dom().contains(name))
            ==> env.lookup(path, name) == Some(env.scope(path.last())[name]),
    decreases path.len(),
{
    if !env.scope(path[0]).dom().contains(name) {
        let rest = path.drop_first();
        assert(rest.len() > 0);
        assert(rest.last() == path.last());
        lemma_lookup_reaches(env, rest, name);
        if forall|i: int| 0 <= i < path.len() - 1 ==> !env.scope(#[trigger] path[i]).dom().contains(name) {
            assert forall|i: int| 0 <= i < rest.len() - 1 implies !env.scope(
                #[trigger] rest[i],
            ).dom().contains(name) by {
                assert(rest[i] == path[i + 1]);
            }
        }
    } else {
        if forall|i: int| 0 <= i < path.len() - 1 ==> !env.scope(#[trigger] path[i]).dom().contains(name) {
            assert(path.len() == 1);
        }
    }
}

/// A name that the global scope binds is found from every scope, with the
/// global value unless a scope nearer to the current one binds it too.
pub proof fn lemma_global_is_found(env: &Environment, name: Seq<char>)
    requires
        env.wf(),
        env.scope(env.global).dom().contains(name),
    ensures
        env.lookup(env.scopes(), name) is Some,
        (forall|i: int| 0 <= i < env.scopes().len() - 1 ==> !env.scope(
            #[trigger] env.scopes()[i],
        ).dom().contains(name)) ==> env.lookup(env.scopes(), name) == Some(
            env.scope(env.global)[name],
        ),
{
    lemma_scopes_end_at_global(env);
    lemma_lookup_reaches(env, env.scopes(), name);
}

/// After `define_global` a lookup of the name from the current scope finds
/// a value: the one that was bound, unless a scope nearer to the current one
/// binds the name too.
pub proof fn lemma_defined_global_is_found(
    before: &Environment,
    after: &Environment,
    name: Seq<char>,
    object: Object,
)
    requires
        before.wf(),
        after.changed_at(before, before.global, before.scope(before.global).insert(name, object)),
    ensures
        after.lookup(after.scopes(), name) is Some,
        (forall|i: int| 0 <= i < after.scopes().len() - 1 ==> !after.scope(
            #[trigger] after.scopes()[i],
        ).dom().contains(name)) ==> after.lookup(after.scopes(), name) == Some(object),
{
    lemma_global_is_found(after, name);
}

} // verus!
