//! The tree-walking evaluator, as a machine that is stepped by its host.
//!
//! The machine holds what it is about to do (its control), what it will do
//! after that (its continuation, a stack of frames), and the scopes of the
//! program. [`Interpreter::step`] makes one transition. The machine does not
//! print, read the clock, or compute with doubles: a step that needs one of
//! these returns a request, and the host answers a request for a number with
//! [`Interpreter::supply`].

use crate::ast::ExprId;
use crate::ast::StmtId;
use crate::chain::SharedNode;
use crate::environment::Environment;
use crate::error::RuntimeError;
use crate::object::ArithOp;
use crate::object::NativeFunction;
use crate::object::Number;
use crate::object::Object;
use crate::object::ObjectView;
use crate::resolver::Depths;
use vstd::prelude::*;
use vstd::string::StringExecFns;

pub mod apply;
pub mod balance;
pub mod call;
pub mod evaluate;
pub mod execute;
pub mod finish;
pub mod machine;
pub mod unwind;

verus! {

/// What the machine is about to do.
#[derive(Debug)]
pub enum Control {
    /// Nothing: no program is loaded, or the program has ended.
    Idle,
    /// Evaluate the expression.
    Expr(ExprId),
    /// Execute the statement.
    Stmt(StmtId),
    /// Hand the value of an expression to the frame that waits for it.
    Value(Object),
    /// Go on after a statement that has been executed.
    Done,
    /// Leave the function that is being called, with its result.
    Return(Object),
    /// Give up, with the error.
    Raise(RuntimeError),
    /// Wait for the number that the host was asked for.
    Await,
}

/// What the machine will do once its control has been dealt with.
#[derive(Debug)]
pub enum Frame {
    /// Apply the operator of the unary expression to its operand.
    Unary(ExprId),
    /// Evaluate the right operand of the binary expression.
    BinaryLeft(ExprId),
    /// Apply the operator of the binary expression to the left operand,
    /// which is held, and the right.
    BinaryRight(ExprId, Object),
    /// Look at the left operand of the logical expression, and evaluate the
    /// right operand only if the left does not decide.
    Logical(ExprId),
    /// Assign the value to the variable of the assignment.
    Assign(ExprId),
    /// Evaluate the arguments of the call, now that its callee is known.
    Callee(ExprId),
    /// Evaluate the next argument of the call.
    Args { call: ExprId, callee: Object, args: Vec<Object> },
    /// Print the value.
    Print,
    /// Drop the value of an expression statement.
    Discard,
    /// Bind the variable of the declaration to its initial value.
    Define(StmtId),
    /// Choose a branch of the `if` by its condition.
    If(StmtId),
    /// Run the body of the `while` if its condition holds.
    WhileCondition(StmtId),
    /// Evaluate the condition of the `while` again.
    WhileBody(StmtId),
    /// Return the value.
    ReturnValue,
    /// Execute the statements of the block from `next` on, and then close
    /// the scope that was opened for the block.
    Block { stmt: StmtId, next: usize },
    /// Execute the statements of the function from `next` on, and then
    /// close the scope of the call and go back to the scope `caller`.
    Body { decl: StmtId, next: usize, caller: SharedNode },
    /// Execute the statements of the program from `next` on.
    Program { stmts: Vec<StmtId>, next: usize },
}

/// How a run has ended.
#[derive(Debug)]
pub enum Outcome {
    /// The program has been executed.
    Executed,
    /// The expression has been evaluated.
    Evaluated(Object),
    /// The run has failed.
    Failed(RuntimeError),
}

/// What a step asks of the host.
#[derive(Debug)]
pub enum Request {
    /// Nothing: step again.
    Continue,
    /// Write the value and a line break to standard output, then step again.
    Print(Object),
    /// Supply the double that the digits stand for.
    ParseNumber(String),
    /// Supply the result of `op` on the two doubles.
    Arith { op: ArithOp, left: Number, right: Number },
    /// Supply the milliseconds since the Unix epoch.
    Clock,
    /// The machine waits for a number: supply it.
    Waiting,
    /// Nothing more: the run has ended.
    Finished(Outcome),
}

/// The evaluator.
pub struct Interpreter {
    pub env: Environment,
    pub depths: Depths,
    pub control: Control,
    pub kont: Vec<Frame>,
}

/// Whether a frame owes the closing of a scope.
pub open spec fn closes_scope(frame: Frame) -> bool {
    frame is Block || frame is Body
}

/// The scope that is current once the frames `kont` have all been popped
/// from a machine whose current scope is `current`: a block closes its
/// scope, a function body closes the scope of the call and goes back to
/// the scope of the caller. `None` if a scope that is owed cannot be closed.
pub open spec fn unwound(
    parents: Seq<Option<SharedNode>>,
    current: SharedNode,
    kont: Seq<Frame>,
) -> Option<SharedNode>
    decreases kont.len(),
{
    if kont.len() == 0 {
        Some(current)
    } else {
        match kont.last() {
            Frame::Block { .. } => if current.index < parents.len() && parents[current.index as int]
                is Some {
                unwound(parents, parents[current.index as int]->0, kont.drop_last())
            } else {
                None
            },
            Frame::Body { caller, .. } => if current.index < parents.len()
                && parents[current.index as int] is Some && caller.index < parents.len() {
                unwound(parents, caller, kont.drop_last())
            } else {
                None
            },
            _ => unwound(parents, current, kont.drop_last()),
        }
    }
}

/// Once every frame has been popped from a machine whose scopes are
/// balanced, the global scope is current: every scope that was opened has
/// been closed, whether the run ended well, with an error, or with a
/// `return`.
pub proof fn lemma_balanced_at_rest(machine: &Interpreter)
    requires
        machine.balanced(),
        machine.kont@.len() == 0,
    ensures
        machine.env.current() == machine.env.global,
{
}

/// In a machine whose scopes are balanced, a frame that owes a scope can
/// pay: when a block or a function body is on top of the continuation, the
/// current scope is not the root, and closing it leaves a machine whose
/// scopes are balanced if the frame is popped with it.
pub proof fn lemma_balanced_owes(machine: &Interpreter)
    requires
        machine.balanced(),
        machine.kont@.len() > 0,
        closes_scope(machine.kont@.last()),
    ensures
        machine.env.current().index < machine.parents().len(),
        machine.parents()[machine.env.current().index as int] is Some,
        machine.kont@.last() is Block ==> unwound(
            machine.parents(),
            machine.parents()[machine.env.current().index as int]->0,
            machine.kont@.drop_last(),
        ) == Some(machine.env.global),
        machine.kont@.last() matches Frame::Body { caller, .. } ==> unwound(
            machine.parents(),
            caller,
            machine.kont@.drop_last(),
        ) == Some(machine.env.global),
{
}

impl Interpreter {
    /// The scope around each scope of the store.
    pub open spec fn parents(&self) -> Seq<Option<SharedNode>> {
        Seq::new(self.env.chain.nodes@.len(), |i: int| self.env.chain.nodes@[i].parent)
    }

    /// Every scope of `before` is a scope of `self`, at the same place in the
    /// store and inside the same scope: scopes are never removed, so a
    /// function value finds the scope of its declaration whenever it is
    /// called.
    pub open spec fn keeps_scopes(&self, before: &Interpreter) -> bool {
        &&& self.env.global == before.env.global
        &&& before.parents().len() <= self.parents().len()
        &&& forall|i: int|
            0 <= i < before.parents().len() ==> #[trigger] self.parents()[i] == before.parents()[i]
    }

    /// The scopes are sound.
    pub open spec fn wf(&self) -> bool {
        self.env.wf()
    }

    /// Every scope that was opened and not yet closed is owed by exactly one
    /// frame of the continuation: popping all frames leads back to the
    /// global scope.
    pub open spec fn balanced(&self) -> bool {
        unwound(self.parents(), self.env.current(), self.kont@) == Some(self.env.global)
    }

    /// An evaluator with the built-in functions in its global scope, and
    /// nothing to do.
    pub fn new() -> (i: Self)
        ensures
            i.wf(),
            i.balanced(),
            i.control is Idle,
            i.kont@.len() == 0,
            i.depths@ == Map::<u64, usize>::empty(),
            i.env.current() == i.env.global,
            i.env.scope(i.env.global).dom() == set!["clock"@],
            i.env.scope(i.env.global)["clock"@]@ == (ObjectView::NativeFunction {
                name: "clock"@,
                arity: 0,
            }),
    {
        let mut this = Interpreter {
            env: Environment::new(),
            depths: Depths::new(),
            control: Control::Idle,
            kont: Vec::new(),
        };
        this.define_builtins();
        this
    }

    /// Binds the built-in functions in the global scope: `clock`, which
    /// takes no arguments.
    fn define_builtins(&mut self)
        requires
            old(self).wf(),
        ensures
            final(self).keeps_scopes(old(self)),
            final(self).wf(),
            final(self).control == old(self).control,
            final(self).kont == old(self).kont,
            final(self).depths == old(self).depths,
            final(self).env.chain.end == old(self).env.chain.end,
            final(self).env.global == old(self).env.global,
            final(self).parents() == old(self).parents(),
            final(self).env.scope(final(self).env.global).dom() == old(self).env.scope(
                old(self).env.global,
            ).dom().insert("clock"@),
            final(self).env.scope(final(self).env.global)["clock"@]@
                == (ObjectView::NativeFunction {
                name: "clock"@,
                arity: 0,
            }),
    {
        self.env.define_global(
            String::from_str("clock"),
            Object::NativeFunction(NativeFunction::new("clock", 0)),
        );
        assert(self.parents() =~= old(self).parents());
    }

    /// Notes that the variable used by the expression `expr_id` is bound
    /// `depth` scopes out from where it is used.
    pub fn resolve(&mut self, expr_id: ExprId, depth: usize)
        ensures
            final(self).keeps_scopes(old(self)),
            final(self).depths@ == old(self).depths@.insert(expr_id.raw, depth),
            final(self).env == old(self).env,
            final(self).control == old(self).control,
            final(self).kont == old(self).kont,
            old(self).balanced() ==> final(self).balanced(),
    {
        self.depths.resolve_var(expr_id, depth);
    }

    /// Loads the program `program`: the next steps execute its statements
    /// in order.
    pub fn start(&mut self, program: Vec<StmtId>)
        ensures
            final(self).keeps_scopes(old(self)),
            final(self).env == old(self).env,
            final(self).depths == old(self).depths,
            final(self).control is Done,
            final(self).kont@ == old(self).kont@.push(Frame::Program { stmts: program, next: 0 }),
            old(self).balanced() ==> final(self).balanced(),
    {
        proof {
            assert(old(self).kont@.push(Frame::Program { stmts: program, next: 0 }).drop_last()
                =~= old(self).kont@);
        }
        self.kont.push(Frame::Program { stmts: program, next: 0 });
        self.control = Control::Done;
    }

    /// Loads the expression `expr`: the next steps evaluate it.
    pub fn start_expression(&mut self, expr: ExprId)
        ensures
            final(self).keeps_scopes(old(self)),
            final(self).env == old(self).env,
            final(self).depths == old(self).depths,
            final(self).control == Control::Expr(expr),
            final(self).kont == old(self).kont,
            old(self).balanced() ==> final(self).balanced(),
    {
        self.control = Control::Expr(expr);
    }

    /// Answers a request for a number: the number is the value that the
    /// machine waits for. Does nothing unless the machine waits.
    pub fn supply(&mut self, number: Number)
        ensures
            final(self).keeps_scopes(old(self)),
            final(self).env == old(self).env,
            final(self).depths == old(self).depths,
            final(self).kont == old(self).kont,
            final(self).control == (if old(self).control is Await {
                Control::Value(Object::Number(number))
            } else {
                old(self).control
            }),
            old(self).balanced() ==> final(self).balanced(),
    {
        let waits = match &self.control {
            Control::Await => true,
            _ => false,
        };
        if waits {
            self.control = Control::Value(Object::Number(number));
        }
    }
}

} // verus!
