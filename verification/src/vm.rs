//! The bytecode machine.
//!
//! The machine runs a chunk on a stack of values. It does no arithmetic on
//! doubles: where an instruction needs some, the machine stops and asks, and
//! goes on when it is given the answer.

use crate::chunk::Chunk;
use crate::encoding::Decode;
use crate::encoding::DecodeError;
use crate::object::arithmetic_of;
use crate::object::operand_message;
use crate::object::ArithOp;
use crate::object::Arithmetic;
use crate::object::Number;
use crate::object::Object;
use crate::object::ObjectView;
use crate::opcode::OpCode;
use crate::opcode::OpDecodeError;
use vstd::prelude::*;
use vstd::string::StringExecFns;

verus! {

/// Why a run failed.
#[derive(Debug)]
pub enum Error {
    Decode(DecodeError<OpDecodeError>),
    Runtime(String),
}

/// Why a run stopped without failing.
#[derive(Debug)]
pub enum Status {
    /// The chunk returned the value, or its code ended.
    Halted(Option<Object>),
    /// The host is asked to compute `op` on two numbers and to hand the
    /// result to [`VirtualMachine::resume`].
    Ask { op: ArithOp, left: Number, right: Number },
}

/// A stack machine.
pub struct VirtualMachine {
    pub stack: Vec<Object>,
    pub pc: usize,
}

/// The views of a sequence of values.
pub open spec fn object_views(values: Seq<Object>) -> Seq<ObjectView> {
    Seq::new(values.len(), |i: int| values[i]@)
}

/// What the machine does from some point on.
pub enum Effect {
    /// It goes on at `pc` with `stack`.
    Next { stack: Seq<ObjectView>, pc: int },
    /// It halts at `pc` with `stack`: a `Return` gave `value`, or the code ended.
    Halt { value: Option<ObjectView>, stack: Seq<ObjectView>, pc: int },
    /// It asks for `op` on two numbers, and will go on at `pc` with `stack`
    /// and the answer on top.
    Ask { op: ArithOp, left: Number, right: Number, stack: Seq<ObjectView>, pc: int },
    /// The bytes at the program counter are no instruction.
    Malformed(OpDecodeError),
    /// The instruction does not apply; the text says why.
    Fault(Seq<char>),
}

/// The arithmetic operation of an instruction.
pub open spec fn arith_of(op: OpCode) -> Option<ArithOp> {
    match op {
        OpCode::Add => Some(ArithOp::Add),
        OpCode::Sub => Some(ArithOp::Sub),
        OpCode::Mul => Some(ArithOp::Mul),
        OpCode::Div => Some(ArithOp::Div),
        _ => None,
    }
}

/// What an arithmetic instruction does: it takes the two topmost values,
/// the right operand from the top, and asks for the result if they are
/// numbers, or joins them if they are strings under `+`.
pub open spec fn binary_effect(how: ArithOp, stack: Seq<ObjectView>, next: int) -> Effect {
    if stack.len() >= 2 {
        let a = stack[stack.len() - 2];
        let b = stack[stack.len() - 1];
        let rest = stack.take(stack.len() - 2);
        match arithmetic_of(how, a, b) {
            Some(Err(operands)) => Effect::Ask {
                op: how,
                left: operands.0,
                right: operands.1,
                stack: rest,
                pc: next,
            },
            Some(Ok(joined)) => Effect::Next { stack: rest.push(joined), pc: next },
            None => Effect::Fault(operand_message(how, a, b)),
        }
    } else {
        Effect::Fault("Stack underflow."@)
    }
}

/// What the instruction `op` does to `stack`, where the next instruction
/// stands at `next`.
pub open spec fn effect_of(
    constants: Seq<ObjectView>,
    op: OpCode,
    stack: Seq<ObjectView>,
    next: int,
) -> Effect {
    match op {
        OpCode::NoOp => Effect::Next { stack, pc: next },
        OpCode::Return => if stack.len() > 0 {
            Effect::Halt { value: Some(stack.last()), stack: stack.drop_last(), pc: next }
        } else {
            Effect::Fault("Stack underflow."@)
        },
        OpCode::Constant(addr) => if (addr as int) < constants.len() {
            Effect::Next { stack: stack.push(constants[addr as int]), pc: next }
        } else {
            Effect::Fault("No such constant."@)
        },
        OpCode::Neg => if stack.len() > 0 {
            match stack.last() {
                ObjectView::Number(n) => Effect::Next {
                    stack: stack.drop_last().push(ObjectView::Number(n.flipped())),
                    pc: next,
                },
                _ => Effect::Fault("Operand must be a number."@),
            }
        } else {
            Effect::Fault("Stack underflow."@)
        },
        OpCode::Add => binary_effect(ArithOp::Add, stack, next),
        OpCode::Sub => binary_effect(ArithOp::Sub, stack, next),
        OpCode::Mul => binary_effect(ArithOp::Mul, stack, next),
        OpCode::Div => binary_effect(ArithOp::Div, stack, next),
    }
}

/// What the machine does at `pc`: it halts at the end of the code, and else
/// decodes one instruction and executes it.
pub open spec fn step_at(
    code: Seq<u8>,
    constants: Seq<ObjectView>,
    stack: Seq<ObjectView>,
    pc: int,
) -> Effect {
    if 0 <= pc < code.len() {
        match OpCode::decoding(code.skip(pc)) {
            Ok((op, width)) => effect_of(constants, op, stack, pc + width),
            Err(e) => Effect::Malformed(e),
        }
    } else {
        Effect::Halt { value: None, stack, pc }
    }
}

/// What the machine does from `pc` on, until it halts, asks or fails. An
/// instruction always lies inside the code and takes at least one byte, so
/// the machine always goes on at a later place in the code.
pub open spec fn run_from(
    code: Seq<u8>,
    constants: Seq<ObjectView>,
    stack: Seq<ObjectView>,
    pc: int,
) -> Effect
    decreases code.len() - pc,
{
    match step_at(code, constants, stack, pc) {
        Effect::Next { stack: after, pc: next } => {
            if pc < next <= code.len() {
                run_from(code, constants, after, next)
            } else {
                Effect::Next { stack: after, pc: next }
            }
        },
        other => other,
    }
}

/// The view of a value that may be missing.
pub open spec fn opt_view(v: Option<Object>) -> Option<ObjectView> {
    match v {
        Some(o) => Some(o@),
        None => None,
    }
}

/// The machine and what it returned are as `effect` says: it halted or
/// asked with that stack and program counter, or failed with that error.
pub open spec fn ends_as(vm: &VirtualMachine, r: Result<Status, Error>, effect: Effect) -> bool {
    match effect {
        Effect::Halt { value, stack, pc } => (r matches Ok(Status::Halted(v)) && opt_view(v)
            == value) && object_views(vm.stack@) == stack && vm.pc == pc,
        Effect::Ask { op, left, right, stack, pc } => (r matches Ok(
            Status::Ask { op: o, left: l, right: rr },
        ) && o == op && l == left && rr == right) && object_views(vm.stack@) == stack && vm.pc
            == pc,
        Effect::Malformed(e) => r matches Err(Error::Decode(DecodeError::OpCodeError(d))) && d
            == e,
        Effect::Fault(message) => r matches Err(Error::Runtime(m)) && m@ == message,
        Effect::Next { .. } => false,
    }
}

/// As [`ends_as`], for one instruction after which the machine may go on.
pub open spec fn steps_as(
    vm: &VirtualMachine,
    r: Result<Option<Status>, Error>,
    effect: Effect,
) -> bool {
    match effect {
        Effect::Next { stack, pc } => r matches Ok(None) && object_views(vm.stack@) == stack
            && vm.pc == pc,
        Effect::Halt { value, stack, pc } => (r matches Ok(Some(Status::Halted(v))) && opt_view(v)
            == value) && object_views(vm.stack@) == stack && vm.pc == pc,
        Effect::Ask { op, left, right, stack, pc } => (r matches Ok(
            Some(Status::Ask { op: o, left: l, right: rr }),
        ) && o == op && l == left && rr == right) && object_views(vm.stack@) == stack && vm.pc
            == pc,
        Effect::Malformed(e) => r matches Err(Error::Decode(DecodeError::OpCodeError(d))) && d
            == e,
        Effect::Fault(message) => r matches Err(Error::Runtime(m)) && m@ == message,
    }
}

fn fault(message: &str) -> (e: Error)
    ensures
        e matches Error::Runtime(m) && m@ == message@,
{
    Error::Runtime(String::from_str(message))
}

impl Default for VirtualMachine {
    /// A machine with an empty stack, as [`VirtualMachine::new`] gives it.
    fn default() -> (vm: Self)
        ensures
            vm.stack@.len() == 0,
            vm.pc == 0,
    {
        VirtualMachine::new()
    }
}

impl VirtualMachine {
    /// The views of the values on the stack, the top last.
    pub open spec fn stack_view(&self) -> Seq<ObjectView> {
        object_views(self.stack@)
    }

    /// A machine with an empty stack.
    pub fn new() -> (vm: Self)
        ensures
            vm.stack@.len() == 0,
            vm.pc == 0,
    {
        VirtualMachine { stack: Vec::new(), pc: 0 }
    }

    fn stack_push(&mut self, value: Object)
        ensures
            final(self).stack@ == old(self).stack@.push(value),
            final(self).stack_view() == old(self).stack_view().push(value@),
            final(self).pc == old(self).pc,
    {
        self.stack.push(value);
        assert(self.stack_view() =~= old(self).stack_view().push(value@));
    }

    fn stack_pop(&mut self) -> (v: Option<Object>)
        ensures
            final(self).pc == old(self).pc,
            old(self).stack@.len() > 0 ==> v == Some(old(self).stack@.last()) && final(self).stack@
                == old(self).stack@.drop_last() && final(self).stack_view()
                    == old(self).stack_view().drop_last() && v->0@ == old(self).stack_view().last(),
            old(self).stack@.len() == 0 ==> v is None && final(self).stack@ == old(self).stack@,
    {
        let v = self.stack.pop();
        assert(old(self).stack@.len() > 0 ==> self.stack_view()
            =~= old(self).stack_view().drop_last());
        v
    }

    /// Executes an arithmetic instruction.
    fn binary(&mut self, how: ArithOp, next: usize) -> (r: Result<Option<Status>, Error>)
        ensures
            steps_as(final(self), r, binary_effect(how, old(self).stack_view(), next as int)),
    {
        if self.stack.len() < 2 {
            return Err(fault("Stack underflow."));
        }
        let ghost before = self.stack_view();
        let b = self.stack_pop().unwrap();
        let a = self.stack_pop().unwrap();
        self.pc = next;
        assert(self.stack_view() =~= before.take(before.len() - 2));
        match a.arithmetic(how, &b) {
            Ok(Arithmetic::Ask { op, left, right }) => Ok(Some(Status::Ask { op, left, right })),
            Ok(Arithmetic::Done(value)) => {
                self.stack_push(value);
                Ok(None)
            },
            Err(e) => match e {
                crate::object::OpError::InvalidOperand(m) => Err(Error::Runtime(m)),
            },
        }
    }

    /// Executes `op`, after which the next instruction stands at `next`.
    fn execute(&mut self, chunk: &Chunk, op: OpCode, next: usize) -> (r: Result<
        Option<Status>,
        Error,
    >)
        ensures
            steps_as(
                final(self),
                r,
                effect_of(object_views(chunk.constants@), op, old(self).stack_view(), next as int),
            ),
    {
        match op {
            OpCode::NoOp => {
                self.pc = next;
                Ok(None)
            },
            OpCode::Return => {
                match self.stack_pop() {
                    Some(value) => {
                        self.pc = next;
                        Ok(Some(Status::Halted(Some(value))))
                    },
                    None => Err(fault("Stack underflow.")),
                }
            },
            OpCode::Constant(addr) => {
                match chunk.constant(addr) {
                    Some(value) => {
                        self.pc = next;
                        self.stack_push(value.clone());
                        Ok(None)
                    },
                    None => Err(fault("No such constant.")),
                }
            },
            OpCode::Neg => {
                match self.stack_pop() {
                    Some(Object::Number(n)) => {
                        self.pc = next;
                        self.stack_push(Object::Number(n.negated()));
                        Ok(None)
                    },
                    Some(_) => Err(fault("Operand must be a number.")),
                    None => Err(fault("Stack underflow.")),
                }
            },
            OpCode::Add => self.binary(ArithOp::Add, next),
            OpCode::Sub => self.binary(ArithOp::Sub, next),
            OpCode::Mul => self.binary(ArithOp::Mul, next),
            OpCode::Div => self.binary(ArithOp::Div, next),
        }
    }

    /// Decodes the instruction at the program counter and executes it.
    pub fn step(&mut self, chunk: &Chunk) -> (r: Result<Option<Status>, Error>)
        ensures
            steps_as(
                final(self),
                r,
                step_at(
                    chunk.code@,
                    object_views(chunk.constants@),
                    old(self).stack_view(),
                    old(self).pc as int,
                ),
            ),
            r matches Ok(None) ==> old(self).pc < final(self).pc <= chunk.code@.len(),
    {
        let len = chunk.code.len();
        if self.pc >= len {
            return Ok(Some(Status::Halted(None)));
        }
        let rest = vstd::slice::slice_subrange(chunk.code.as_slice(), self.pc, len);
        assert(rest@ =~= chunk.code@.skip(self.pc as int));
        match OpCode::decode(rest) {
            Ok((op, width)) => {
                let next = self.pc + width;
                self.execute(chunk, op, next)
            },
            Err(e) => Err(Error::Decode(DecodeError::OpCodeError(e))),
        }
    }

    /// Runs from the program counter until the machine halts, asks or fails.
    fn go_on(&mut self, chunk: &Chunk) -> (r: Result<Status, Error>)
        ensures
            ends_as(
                final(self),
                r,
                run_from(
                    chunk.code@,
                    object_views(chunk.constants@),
                    old(self).stack_view(),
                    old(self).pc as int,
                ),
            ),
    {
        let ghost goal = run_from(
            chunk.code@,
            object_views(chunk.constants@),
            self.stack_view(),
            self.pc as int,
        );
        loop
            invariant
                goal == run_from(
                    chunk.code@,
                    object_views(chunk.constants@),
                    old(self).stack_view(),
                    old(self).pc as int,
                ),
                goal == run_from(
                    chunk.code@,
                    object_views(chunk.constants@),
                    self.stack_view(),
                    self.pc as int,
                ),
            decreases chunk.code@.len() - self.pc,
        {
            let ghost effect = step_at(
                chunk.code@,
                object_views(chunk.constants@),
                self.stack_view(),
                self.pc as int,
            );
            match self.step(chunk) {
                Ok(Some(status)) => {
                    assert(!(effect is Next));
                    assert(goal == effect);
                    return Ok(status);
                },
                Ok(None) => {
                    assert(effect is Next);
                },
                Err(e) => {
                    assert(!(effect is Next));
                    assert(goal == effect);
                    return Err(e);
                },
            }
        }
    }

    /// Runs `chunk` from its start, on the stack as it stands, until the
    /// chunk returns a value, its code ends, an instruction fails, or
    /// arithmetic is asked for.
    pub fn run(&mut self, chunk: &Chunk) -> (r: Result<Status, Error>)
        ensures
            ends_as(
                final(self),
                r,
                run_from(chunk.code@, object_views(chunk.constants@), old(self).stack_view(), 0),
            ),
    {
        self.pc = 0;
        self.go_on(chunk)
    }

    /// As [`VirtualMachine::run`].
    pub fn interpret(&mut self, chunk: &Chunk) -> (r: Result<Status, Error>)
        ensures
            ends_as(
                final(self),
                r,
                run_from(chunk.code@, object_views(chunk.constants@), old(self).stack_view(), 0),
            ),
    {
        self.run(chunk)
    }

    /// Goes on after a question, with `answer` as the result of the
    /// arithmetic that was asked for.
    pub fn resume(&mut self, chunk: &Chunk, answer: Number) -> (r: Result<Status, Error>)
        ensures
            ends_as(
                final(self),
                r,
                run_from(
                    chunk.code@,
                    object_views(chunk.constants@),
                    old(self).stack_view().push(ObjectView::Number(answer)),
                    old(self).pc as int,
                ),
            ),
    {
        self.stack_push(Object::Number(answer));
        self.go_on(chunk)
    }
}

} // verus!
