//! The steps of a call: the arguments, the checks, and the entry into the
//! function.

use crate::ast::AstArena;
use crate::ast::Stmt;
use crate::interpreter::balance::lemma_opened_parents;
use crate::interpreter::balance::lemma_unwound_grow;
use crate::interpreter::balance::parents_of;
use crate::chain::SharedNode;
use crate::environment::Environment;
use crate::error::runtime::arity_message;
use crate::error::RuntimeError;
use crate::interpreter::evaluate::broken_tree;
use crate::interpreter::evaluate::raises;
use crate::interpreter::evaluate::scopes_kept;
use crate::interpreter::Control;
use crate::interpreter::Frame;
use crate::interpreter::Interpreter;
use crate::interpreter::Request;
use crate::object::Function;
use crate::object::Object;
use crate::object::ObjectView;
use crate::span::Span;
use crate::tokens::Token;
use vstd::prelude::*;
use vstd::string::StringExecFns;

verus! {

/// The bindings of the first `n` of `params` to the first `n` of `args`.
pub open spec fn bound_params(params: Seq<Token>, args: Seq<Object>, n: int) -> Map<
    Seq<char>,
    Object,
>
    decreases n,
{
    if n <= 0 || n > params.len() || n > args.len() {
        Map::empty()
    } else {
        bound_params(params, args, n - 1).insert(params[n - 1]@.text(), args[n - 1])
    }
}

/// The lesser of two lengths.
pub open spec fn lesser(a: int, b: int) -> int {
    if a <= b {
        a
    } else {
        b
    }
}

/// `after` is `before` with a new scope inside the scope `scope`, in which
/// `params` are bound to `args`, and the new scope is current.
pub open spec fn entered_call(
    before: &Environment,
    after: &Environment,
    scope: SharedNode,
    params: Seq<Token>,
    args: Seq<Object>,
) -> bool {
    &&& after.wf()
    &&& after.global == before.global
    &&& after.chain.nodes@.len() == before.chain.nodes@.len() + 1
    &&& after.current().index == before.chain.nodes@.len()
    &&& after.parent(after.current()) == Some(
        if before.chain.holds(scope) {
            scope
        } else {
            before.current()
        },
    )
    &&& after.scope(after.current()) == bound_params(
        params,
        args,
        lesser(params.len() as int, args.len() as int),
    )
    &&& forall|i: int|
        0 <= i < before.chain.nodes.len() ==> (#[trigger] after.chain.nodes[i])
            == before.chain.nodes[i]
}

/// What a call of `callee` with `count` arguments, written at `span`, comes
/// to before the function is entered: an error if the value cannot be
/// called or takes another number of arguments, and else nothing.
pub open spec fn call_error(callee: ObjectView, count: nat, span: Span, control: Control) -> bool {
    match callee {
        ObjectView::NativeFunction { arity, .. } | ObjectView::Function { arity, .. } => arity
            != count && raises(control, span, arity_message(arity as nat, count)),
        _ => raises(control, span, "Object is not a callable."@),
    }
}

/// Whether `callee` can be called with `count` arguments.
pub open spec fn callable_with(callee: ObjectView, count: nat) -> bool {
    match callee {
        ObjectView::NativeFunction { arity, .. } | ObjectView::Function { arity, .. } => arity
            == count,
        _ => false,
    }
}

impl Interpreter {
    /// Binds, in the current scope, each of `params` to the argument at
    /// its place.
    fn bind_params(&mut self, params: &Vec<Token>, args: &Vec<Object>)
        requires
            old(self).wf(),
        ensures
            final(self).keeps_scopes(old(self)),
            final(self).wf(),
            final(self).depths == old(self).depths,
            final(self).kont == old(self).kont,
            final(self).control == old(self).control,
            final(self).env.changed_at(
                &old(self).env,
                old(self).env.current(),
                old(self).env.scope(old(self).env.current()).union_prefer_right(
                    bound_params(params@, args@, lesser(params@.len() as int, args@.len() as int)),
                ),
            ),
    {
        let n = if params.len() <= args.len() {
            params.len()
        } else {
            args.len()
        };
        let mut i: usize = 0;
        let ghost start = self.env.scope(self.env.current());
        let ghost node = self.env.current();
        assert(start.union_prefer_right(bound_params(params@, args@, 0)) =~= start);
        assert(self.env.chain.nodes@ =~= old(self).env.chain.nodes@);
        while i < n
            invariant
                i <= n,
                n == lesser(params@.len() as int, args@.len() as int),
                self.wf(),
                old(self).wf(),
                self.depths == old(self).depths,
                self.kont == old(self).kont,
                self.control == old(self).control,
                node == old(self).env.current(),
                start == old(self).env.scope(node),
                self.env.changed_at(
                    &old(self).env,
                    node,
                    start.union_prefer_right(bound_params(params@, args@, i as int)),
                ),
            decreases n - i,
        {
            let ghost before = self.env;
            let name = params[i].as_str();
            self.env.define(name, args[i].clone());
            proof {
                assert(start.union_prefer_right(bound_params(params@, args@, i as int)).insert(
                    params@[i as int]@.text(),
                    args@[i as int],
                ) =~= start.union_prefer_right(bound_params(params@, args@, i + 1)));
            }
            i += 1;
        }
    }

    /// Enters the function `f` with the arguments `args`: its body runs in
    /// a new scope inside the scope in which the function was declared, not
    /// inside the scope of the caller, and the frame that is left closes
    /// that scope and goes back to the caller's.
    fn enter_function(&mut self, arena: &AstArena, f: &Function, args: &Vec<Object>)
        requires
            old(self).wf(),
        ensures
            final(self).keeps_scopes(old(self)),
            final(self).wf(),
            final(self).depths == old(self).depths,
            match arena.get_function(f.decl) {
                Some(d) => final(self).control is Done && final(self).kont@ == old(self).kont@.push(
                    Frame::Body { decl: f.decl, next: 0, caller: old(self).env.current() },
                ) && entered_call(&old(self).env, &final(self).env, f.enclosing_env, d.params@, args@),
                None => scopes_kept(old(self), final(self)) && final(self).kont == old(self).kont
                    && raises(final(self).control, Span::origin(), broken_tree()),
            },
            old(self).balanced() ==> final(self).balanced(),
    {
        match arena.get_stmt(f.decl) {
            Some(Stmt::Function(d)) => {
                let caller = self.env.enter(f.enclosing_env);
                let ghost entered = self.env;
                self.env.push_scope();
                let ghost opened = self.env;
                self.bind_params(&d.params, args);
                self.kont.push(Frame::Body { decl: f.decl, next: 0, caller });
                self.control = Control::Done;
                proof {
                    assert(self.env.scope(self.env.current()) =~= bound_params(
                        d.params@,
                        args@,
                        lesser(d.params@.len() as int, args@.len() as int),
                    ));
                    if old(self).balanced() {
                        lemma_opened_parents(&entered, &opened);
                        assert(parents_of(&entered) =~= old(self).parents());
                        assert(self.parents() =~= parents_of(&opened));
                        lemma_unwound_grow(
                            old(self).parents(),
                            Some(entered.current()),
                            old(self).env.current(),
                            old(self).kont@,
                        );
                        assert(self.kont@.drop_last() =~= old(self).kont@);
                    }
                }
            },
            _ => self.raise(Span::default(), "Broken syntax tree."),
        }
    }

    /// Calls `callee`, the value of the callee of the call `call`, with
    /// `args`: a value that cannot be called, or that takes another number
    /// of arguments, is an error; the built-in `clock` asks the host for
    /// the time; a function of the program is entered.
    pub(crate) fn invoke(&mut self, arena: &AstArena, span: Span, callee: Object, args: Vec<Object>) -> (r:
        Request)
        requires
            old(self).wf(),
        ensures
            final(self).keeps_scopes(old(self)),
            final(self).wf(),
            final(self).depths == old(self).depths,
            invoked(old(self), final(self), arena, span, callee, args@, r),
            old(self).balanced() ==> final(self).balanced(),
    {
        match callee.as_callable() {
            None => {
                self.control = Control::Raise(RuntimeError::not_callable(span));
                return Request::Continue;
            },
            Some(arity) => {
                if arity as usize != args.len() {
                    self.control = Control::Raise(RuntimeError::arity(span, arity, args.len()));
                    return Request::Continue;
                }
            },
        }
        match &callee {
            Object::Function(f) => {
                self.enter_function(arena, f, &args);
                Request::Continue
            },
            Object::NativeFunction(f) => {
                if f.name == String::from_str("clock") {
                    self.control = Control::Await;
                    Request::Clock
                } else {
                    self.raise(span, "Unknown native function.");
                    Request::Continue
                }
            },
            _ => {
                self.raise(span, "Broken syntax tree.");
                Request::Continue
            },
        }
    }
}

/// What calling `callee` with `args`, for a call written at `span`, does to
/// the machine.
pub open spec fn invoked(
    before: &Interpreter,
    after: &Interpreter,
    arena: &AstArena,
    span: Span,
    callee: Object,
    args: Seq<Object>,
    r: Request,
) -> bool {
    if !callable_with(callee@, args.len()) {
        scopes_kept(before, after) && after.kont == before.kont && r is Continue && call_error(
            callee@,
            args.len(),
            span,
            after.control,
        )
    } else {
        match callee {
            Object::Function(f) => r is Continue && match arena.get_function(f.decl) {
                Some(d) => after.control is Done && after.kont@ == before.kont@.push(
                    Frame::Body { decl: f.decl, next: 0, caller: before.env.current() },
                ) && entered_call(&before.env, &after.env, f.enclosing_env, d.params@, args),
                None => scopes_kept(before, after) && after.kont == before.kont && raises(
                    after.control,
                    Span::origin(),
                    broken_tree(),
                ),
            },
            Object::NativeFunction(f) => scopes_kept(before, after) && after.kont == before.kont
                && if f.name@ == "clock"@ {
                after.control is Await && r is Clock
            } else {
                r is Continue && raises(after.control, span, "Unknown native function."@)
            },
            _ => false,
        }
    }
}

/// The body of a function runs inside the scope in which the function was
/// declared, whatever scope is current where it is called: the scope that
/// a call opens has the scope that the function value remembers around it.
pub proof fn lemma_call_enters_declaration_scope(
    before: &Interpreter,
    after: &Interpreter,
    arena: &AstArena,
    span: Span,
    f: Function,
    args: Seq<Object>,
    r: Request,
)
    requires
        invoked(before, after, arena, span, Object::Function(f), args, r),
        f.arity == args.len(),
        arena.get_function(f.decl) is Some,
        before.env.chain.holds(f.enclosing_env),
    ensures
        after.env.parent(after.env.current()) == Some(f.enclosing_env),
        after.kont@.last() == (Frame::Body {
            decl: f.decl,
            next: 0,
            caller: before.env.current(),
        }),
{
}

} // verus!
