//! The values of a running program.

use crate::ast::StmtId;
use crate::chain::SharedNode;
use crate::text::push_str;
use vstd::prelude::*;
use vstd::string::StringExecFns;

verus! {

/// A double-precision number, held as its 64 bits: the sign, eleven bits of
/// exponent, and fifty-two bits of fraction.
#[derive(Debug, Clone, Copy, PartialEq, Eq, Structural)]
pub struct Number {
    pub bits: u64,
}

/// The sign bit.
pub const SIGN_BIT: u64 = 0x8000_0000_0000_0000;

/// The bits of the exponent.
pub const EXPONENT_BITS: u64 = 0x7ff0_0000_0000_0000;

/// The bits of the fraction.
pub const FRACTION_BITS: u64 = 0x000f_ffff_ffff_ffff;

impl Number {
    /// Not a number: the exponent is all ones and the fraction is not zero.
    pub open spec fn nan(self) -> bool {
        self.bits & EXPONENT_BITS == EXPONENT_BITS && self.bits & FRACTION_BITS != 0
    }

    /// Zero, of either sign.
    pub open spec fn zero(self) -> bool {
        self.bits & !SIGN_BIT == 0
    }

    /// The place of a number that is not NaN on the number line, as an
    /// integer that grows with the number: the bits without the sign, negated
    /// if the sign is set.
    pub open spec fn key(self) -> int {
        if self.bits & SIGN_BIT != 0 {
            -((self.bits & !SIGN_BIT) as int)
        } else {
            (self.bits & !SIGN_BIT) as int
        }
    }

    /// Equal as numbers: neither is NaN, and they are the same or both zero.
    pub open spec fn same(self, other: Number) -> bool {
        !self.nan() && !other.nan() && self.key() == other.key()
    }

    /// Less as numbers: neither is NaN, and `self` comes first on the number line.
    pub open spec fn below(self, other: Number) -> bool {
        !self.nan() && !other.nan() && self.key() < other.key()
    }

    /// The number with the opposite sign.
    pub open spec fn flipped(self) -> Number {
        Number { bits: self.bits ^ SIGN_BIT }
    }

    pub fn new(bits: u64) -> (n: Self)
        ensures
            n.bits == bits,
    {
        Number { bits }
    }

    pub fn is_nan(&self) -> (b: bool)
        ensures
            b == self.nan(),
    {
        self.bits & EXPONENT_BITS == EXPONENT_BITS && self.bits & FRACTION_BITS != 0
    }

    fn magnitude(&self) -> (m: u64)
        ensures
            m == self.bits & !SIGN_BIT,
    {
        self.bits & !SIGN_BIT
    }

    fn negative(&self) -> (b: bool)
        ensures
            b == (self.bits & SIGN_BIT != 0),
    {
        self.bits & SIGN_BIT != 0
    }

    pub fn equals(&self, other: &Number) -> (b: bool)
        ensures
            b == self.same(*other),
    {
        if self.is_nan() || other.is_nan() {
            return false;
        }
        let a = self.magnitude();
        let b = other.magnitude();
        if a == 0 && b == 0 {
            return true;
        }
        a == b && self.negative() == other.negative()
    }

    pub fn less_than(&self, other: &Number) -> (b: bool)
        ensures
            b == self.below(*other),
    {
        if self.is_nan() || other.is_nan() {
            return false;
        }
        let a = self.magnitude();
        let b = other.magnitude();
        match (self.negative(), other.negative()) {
            (false, false) => a < b,
            (true, true) => a > b,
            (true, false) => a != 0 || b != 0,
            (false, true) => false,
        }
    }

    /// The number with the opposite sign, as negating a double gives it.
    pub fn negated(&self) -> (n: Number)
        ensures
            n == self.flipped(),
    {
        Number { bits: self.bits ^ SIGN_BIT }
    }
}

/// A function that the host provides.
#[derive(Debug)]
pub struct NativeFunction {
    pub name: String,
    pub arity: u8,
}

impl NativeFunction {
    pub fn new(name: &str, arity: u8) -> (f: Self)
        ensures
            f.name@ == name@,
            f.arity == arity,
    {
        NativeFunction { name: String::from_str(name), arity }
    }
}

impl Clone for NativeFunction {
    fn clone(&self) -> (r: Self)
        ensures
            r == *self,
    {
        NativeFunction { name: self.name.clone(), arity: self.arity }
    }
}

/// A function of the program: its declaration, and the scope in which the
/// declaration was executed, which is the scope that its body sees.
#[derive(Debug)]
pub struct Function {
    pub decl: StmtId,
    pub name: String,
    pub arity: u8,
    pub enclosing_env: SharedNode,
}

impl Function {
    pub fn new(decl: StmtId, name: &str, arity: u8, env: SharedNode) -> (f: Self)
        ensures
            f.decl == decl,
            f.name@ == name@,
            f.arity == arity,
            f.enclosing_env == env,
    {
        Function { decl, name: String::from_str(name), arity, enclosing_env: env }
    }

    pub fn name(&self) -> (n: &str)
        ensures
            n@ == self.name@,
    {
        self.name.as_str()
    }
}

impl Clone for Function {
    fn clone(&self) -> (r: Self)
        ensures
            r == *self,
    {
        Function {
            decl: self.decl,
            name: self.name.clone(),
            arity: self.arity,
            enclosing_env: self.enclosing_env,
        }
    }
}

/// A value.
#[derive(Debug)]
pub enum Object {
    Nil,
    Boolean(bool),
    Number(Number),
    String(String),
    NativeFunction(NativeFunction),
    Function(Function),
}

/// A value as contracts see it.
pub enum ObjectView {
    Nil,
    Boolean(bool),
    Number(Number),
    String(Seq<char>),
    NativeFunction { name: Seq<char>, arity: u8 },
    Function { decl: StmtId, name: Seq<char>, arity: u8, env: SharedNode },
}

impl View for Object {
    type V = ObjectView;

    open spec fn view(&self) -> ObjectView {
        match self {
            Object::Nil => ObjectView::Nil,
            Object::Boolean(b) => ObjectView::Boolean(*b),
            Object::Number(n) => ObjectView::Number(*n),
            Object::String(s) => ObjectView::String(s@),
            Object::NativeFunction(f) => ObjectView::NativeFunction { name: f.name@, arity: f.arity },
            Object::Function(f) => ObjectView::Function {
                decl: f.decl,
                name: f.name@,
                arity: f.arity,
                env: f.enclosing_env,
            },
        }
    }
}

impl Clone for Object {
    fn clone(&self) -> (r: Self)
        ensures
            r == *self,
    {
        match self {
            Object::Nil => Object::Nil,
            Object::Boolean(b) => Object::Boolean(*b),
            Object::Number(n) => Object::Number(*n),
            Object::String(s) => Object::String(s.clone()),
            Object::NativeFunction(f) => Object::NativeFunction(f.clone()),
            Object::Function(f) => Object::Function(f.clone()),
        }
    }
}

/// The four operations of arithmetic.
#[derive(Debug, Clone, Copy, PartialEq, Eq, Structural)]
pub enum ArithOp {
    Add,
    Sub,
    Mul,
    Div,
}

/// The four comparisons.
#[derive(Debug, Clone, Copy, PartialEq, Eq, Structural)]
pub enum Comparison {
    Less,
    LessEqual,
    Greater,
    GreaterEqual,
}

/// Why an operation does not apply to its operands.
#[derive(Debug)]
pub enum OpError {
    InvalidOperand(String),
}

/// Why a value is not of the sort that was asked for.
#[derive(Debug, Clone, Copy, PartialEq, Eq, Structural)]
pub struct DowncastError {
    pub is_nil: bool,
}

impl DowncastError {
    pub fn new(is_nil: bool) -> (e: Self)
        ensures
            e.is_nil == is_nil,
    {
        DowncastError { is_nil }
    }

    pub fn is_nil(&self) -> (b: bool)
        ensures
            b == self.is_nil,
    {
        self.is_nil
    }

    /// What the error says.
    pub open spec fn text(self, wanted: Seq<char>) -> Seq<char> {
        if self.is_nil {
            "Object is nil"@
        } else {
            "Object is not of type "@ + wanted
        }
    }

    /// What the error says, where a value of the sort named `wanted` was asked for.
    pub fn to_string(&self, wanted: &str) -> (s: String)
        ensures
            s@ == self.text(wanted@),
    {
        if self.is_nil {
            String::from_str("Object is nil")
        } else {
            let mut s = String::from_str("Object is not of type ");
            push_str(&mut s, wanted);
            s
        }
    }
}

impl OpError {
    /// What the error says.
    pub open spec fn text(self) -> Seq<char> {
        "Invalid operand: "@ + self->0@
    }

    pub fn to_string(&self) -> (s: String)
        ensures
            s@ == self.text(),
    {
        match self {
            OpError::InvalidOperand(m) => {
                let mut s = String::from_str("Invalid operand: ");
                push_str(&mut s, m.as_str());
                s
            },
        }
    }
}

/// Anything that is nil or not.
pub trait Nil {
    spec fn nil(&self) -> bool;

    fn is_nil(&self) -> (b: bool)
        ensures
            b == self.nil(),
    ;
}

impl Nil for Object {
    open spec fn nil(&self) -> bool {
        *self is Nil
    }

    fn is_nil(&self) -> (b: bool) {
        match self {
            Object::Nil => true,
            _ => false,
        }
    }
}

/// A sort of value that an [`Object`] can hold.
pub trait ObjectInternal: Sized {
    /// The object that holds `self`.
    spec fn wrapped(self) -> Object;

    /// The value of this sort that `obj` holds, if it holds one.
    spec fn held(obj: Object) -> Option<Self>;

    fn into_object(self) -> (obj: Object)
        ensures
            obj == self.wrapped(),
    ;

    fn peek(obj: &Object) -> (v: Option<&Self>)
        ensures
            match (v, Self::held(*obj)) {
                (Some(found), Some(expected)) => *found == expected,
                (None, None) => true,
                _ => false,
            },
    ;
}

impl ObjectInternal for bool {
    open spec fn wrapped(self) -> Object {
        Object::Boolean(self)
    }

    open spec fn held(obj: Object) -> Option<bool> {
        match obj {
            Object::Boolean(b) => Some(b),
            _ => None,
        }
    }

    fn into_object(self) -> (obj: Object) {
        Object::Boolean(self)
    }

    fn peek(obj: &Object) -> (v: Option<&bool>) {
        match obj {
            Object::Boolean(b) => Some(b),
            _ => None,
        }
    }
}

impl ObjectInternal for Number {
    open spec fn wrapped(self) -> Object {
        Object::Number(self)
    }

    open spec fn held(obj: Object) -> Option<Number> {
        match obj {
            Object::Number(n) => Some(n),
            _ => None,
        }
    }

    fn into_object(self) -> (obj: Object) {
        Object::Number(self)
    }

    fn peek(obj: &Object) -> (v: Option<&Number>) {
        match obj {
            Object::Number(n) => Some(n),
            _ => None,
        }
    }
}

impl ObjectInternal for String {
    open spec fn wrapped(self) -> Object {
        Object::String(self)
    }

    open spec fn held(obj: Object) -> Option<String> {
        match obj {
            Object::String(s) => Some(s),
            _ => None,
        }
    }

    fn into_object(self) -> (obj: Object) {
        Object::String(self)
    }

    fn peek(obj: &Object) -> (v: Option<&String>) {
        match obj {
            Object::String(s) => Some(s),
            _ => None,
        }
    }
}

impl ObjectInternal for NativeFunction {
    open spec fn wrapped(self) -> Object {
        Object::NativeFunction(self)
    }

    open spec fn held(obj: Object) -> Option<NativeFunction> {
        match obj {
            Object::NativeFunction(f) => Some(f),
            _ => None,
        }
    }

    fn into_object(self) -> (obj: Object) {
        Object::NativeFunction(self)
    }

    fn peek(obj: &Object) -> (v: Option<&NativeFunction>) {
        match obj {
            Object::NativeFunction(f) => Some(f),
            _ => None,
        }
    }
}

impl ObjectInternal for Function {
    open spec fn wrapped(self) -> Object {
        Object::Function(self)
    }

    open spec fn held(obj: Object) -> Option<Function> {
        match obj {
            Object::Function(f) => Some(f),
            _ => None,
        }
    }

    fn into_object(self) -> (obj: Object) {
        Object::Function(self)
    }

    fn peek(obj: &Object) -> (v: Option<&Function>) {
        match obj {
            Object::Function(f) => Some(f),
            _ => None,
        }
    }
}

/// Whether a value counts as true: everything but nil and `false` does.
pub open spec fn truthy(v: ObjectView) -> bool {
    match v {
        ObjectView::Nil => false,
        ObjectView::Boolean(b) => b,
        _ => true,
    }
}

/// Whether two values are equal: nil equals nil, and two values of one sort
/// are equal when their contents are; numbers as numbers, functions by name.
/// Values of different sorts are never equal.
pub open spec fn equal(a: ObjectView, b: ObjectView) -> bool {
    match (a, b) {
        (ObjectView::Nil, ObjectView::Nil) => true,
        (ObjectView::Boolean(x), ObjectView::Boolean(y)) => x == y,
        (ObjectView::Number(x), ObjectView::Number(y)) => x.same(y),
        (ObjectView::String(x), ObjectView::String(y)) => x == y,
        (
            ObjectView::NativeFunction { name: x, .. },
            ObjectView::NativeFunction { name: y, .. },
        ) => x == y,
        (ObjectView::Function { name: x, .. }, ObjectView::Function { name: y, .. }) => x == y,
        _ => false,
    }
}

/// Whether `a` stands in the relation `how` to `b`. Only two numbers can be
/// compared: for any other pair the answer is `false`.
pub open spec fn compared(how: Comparison, a: ObjectView, b: ObjectView) -> bool {
    match (a, b) {
        (ObjectView::Number(x), ObjectView::Number(y)) => match how {
            Comparison::Less => x.below(y),
            Comparison::LessEqual => x.below(y) || x.same(y),
            Comparison::Greater => y.below(x),
            Comparison::GreaterEqual => y.below(x) || x.same(y),
        },
        _ => false,
    }
}

/// How a value is written, unless it is a number: numbers are written by the host.
pub open spec fn written(v: ObjectView) -> Option<Seq<char>> {
    match v {
        ObjectView::Nil => Some("nil"@),
        ObjectView::Boolean(b) => Some(
            if b {
                "true"@
            } else {
                "false"@
            },
        ),
        ObjectView::Number(_) => None,
        ObjectView::String(s) => Some(s),
        ObjectView::NativeFunction { name, .. } => Some("<native fn "@ + name + ">"@),
        ObjectView::Function { name, .. } => Some("<fn "@ + name + ">"@),
    }
}

/// What an arithmetic operation on two values comes to.
pub enum Arithmetic {
    /// The result.
    Done(Object),
    /// Both operands are numbers: the host computes `op` on them.
    Ask { op: ArithOp, left: Number, right: Number },
}

/// What `op` on `a` and `b` comes to: two numbers are handed to the host,
/// two strings are joined by `+`, and nothing else has a result.
pub open spec fn arithmetic_of(op: ArithOp, a: ObjectView, b: ObjectView) -> Option<
    Result<ObjectView, (Number, Number)>,
> {
    match (a, b) {
        (ObjectView::Number(x), ObjectView::Number(y)) => Some(Err((x, y))),
        (ObjectView::String(x), ObjectView::String(y)) => if op == ArithOp::Add {
            Some(Ok(ObjectView::String(x + y)))
        } else {
            None
        },
        _ => None,
    }
}

/// The message for operands on which `op` has no result.
pub open spec fn operand_message(op: ArithOp, a: ObjectView, b: ObjectView) -> Seq<char> {
    if op == ArithOp::Add {
        "Objects not both String or Number"@
    } else if a is Nil || (a is Number && b is Nil) {
        "Object is nil"@
    } else {
        "Object is not of type Number"@
    }
}

impl Object {
    pub fn new<T: ObjectInternal>(value: T) -> (obj: Self)
        ensures
            obj == value.wrapped(),
    {
        value.into_object()
    }

    pub fn nil() -> (obj: Self)
        ensures
            obj == Object::Nil,
    {
        Object::Nil
    }

    /// The value of sort `T` that the object holds.
    pub fn downcast<T: ObjectInternal>(&self) -> (v: &T)
        requires
            T::held(*self) is Some,
        ensures
            *v == T::held(*self)->0,
    {
        match T::peek(self) {
            Some(v) => v,
            None => vstd::pervasive::unreached(),
        }
    }

    /// The value of sort `T` that the object holds, or why it holds none.
    pub fn try_downcast<T: ObjectInternal>(&self) -> (r: Result<&T, DowncastError>)
        ensures
            match r {
                Ok(v) => T::held(*self) == Some(*v),
                Err(e) => T::held(*self) is None && e.is_nil == (*self is Nil),
            },
    {
        match T::peek(self) {
            Some(v) => Ok(v),
            None => Err(DowncastError::new(self.is_nil())),
        }
    }

    pub fn is_truthy(&self) -> (b: bool)
        ensures
            b == truthy(self@),
    {
        match self {
            Object::Nil => false,
            Object::Boolean(b) => *b,
            _ => true,
        }
    }

    /// The number of arguments that the value takes, if it can be called.
    pub fn as_callable(&self) -> (arity: Option<u8>)
        ensures
            arity == (match self@ {
                ObjectView::NativeFunction { arity, .. } => Some(arity),
                ObjectView::Function { arity, .. } => Some(arity),
                _ => None,
            }),
    {
        match self {
            Object::NativeFunction(f) => Some(f.arity),
            Object::Function(f) => Some(f.arity),
            _ => None,
        }
    }

    pub fn equals(&self, other: &Object) -> (b: bool)
        ensures
            b == equal(self@, other@),
    {
        match (self, other) {
            (Object::Nil, Object::Nil) => true,
            (Object::Boolean(x), Object::Boolean(y)) => *x == *y,
            (Object::Number(x), Object::Number(y)) => x.equals(y),
            (Object::String(x), Object::String(y)) => *x == *y,
            (Object::NativeFunction(x), Object::NativeFunction(y)) => x.name == y.name,
            (Object::Function(x), Object::Function(y)) => x.name == y.name,
            _ => false,
        }
    }

    pub fn compare(&self, how: Comparison, other: &Object) -> (b: bool)
        ensures
            b == compared(how, self@, other@),
    {
        match (self, other) {
            (Object::Number(x), Object::Number(y)) => match how {
                Comparison::Less => x.less_than(y),
                Comparison::LessEqual => x.less_than(y) || x.equals(y),
                Comparison::Greater => y.less_than(x),
                Comparison::GreaterEqual => y.less_than(x) || x.equals(y),
            },
            _ => false,
        }
    }

    /// The negation of the truth of the value.
    pub fn not(&self) -> (obj: Object)
        ensures
            obj == Object::Boolean(!truthy(self@)),
    {
        Object::Boolean(!self.is_truthy())
    }

    /// The number with the opposite sign, if the value is a number.
    pub fn neg(&self) -> (r: Result<Object, OpError>)
        ensures
            match (r, self@) {
                (Ok(obj), ObjectView::Number(n)) => obj == Object::Number(n.flipped()),
                (Err(e), ObjectView::Nil) => e->0@ == "Object is nil"@,
                (Err(e), ObjectView::Number(_)) => false,
                (Err(e), _) => e->0@ == "Object is not of type Number"@,
                _ => false,
            },
    {
        match self {
            Object::Number(n) => Ok(Object::Number(n.negated())),
            Object::Nil => Err(OpError::InvalidOperand(String::from_str("Object is nil"))),
            _ => Err(OpError::InvalidOperand(String::from_str("Object is not of type Number"))),
        }
    }

    /// Applies `op` to `self` and `rhs`, as far as that needs no arithmetic
    /// on doubles.
    pub fn arithmetic(&self, op: ArithOp, rhs: &Object) -> (r: Result<Arithmetic, OpError>)
        ensures
            match (r, arithmetic_of(op, self@, rhs@)) {
                (Ok(Arithmetic::Done(obj)), Some(Ok(expected))) => obj@ == expected,
                (Ok(Arithmetic::Ask { op: asked, left, right }), Some(Err(operands))) => asked == op
                    && left == operands.0 && right == operands.1,
                (Err(e), None) => e->0@ == operand_message(op, self@, rhs@),
                _ => false,
            },
    {
        match (self, rhs) {
            (Object::Number(x), Object::Number(y)) => Ok(
                Arithmetic::Ask { op, left: *x, right: *y },
            ),
            (Object::String(x), Object::String(y)) => {
                match op {
                    ArithOp::Add => {
                        let mut s = x.clone();
                        push_str(&mut s, y.as_str());
                        Ok(Arithmetic::Done(Object::String(s)))
                    },
                    _ => Err(
                        OpError::InvalidOperand(String::from_str("Object is not of type Number")),
                    ),
                }
            },
            _ => {
                match op {
                    ArithOp::Add => Err(
                        OpError::InvalidOperand(
                            String::from_str("Objects not both String or Number"),
                        ),
                    ),
                    _ => {
                        let left_nil = self.is_nil();
                        let left_number = match self {
                            Object::Number(_) => true,
                            _ => false,
                        };
                        if left_nil || (left_number && rhs.is_nil()) {
                            Err(OpError::InvalidOperand(String::from_str("Object is nil")))
                        } else {
                            Err(
                                OpError::InvalidOperand(
                                    String::from_str("Object is not of type Number"),
                                ),
                            )
                        }
                    },
                }
            },
        }
    }

    /// How the value is written, unless it is a number.
    pub fn text(&self) -> (s: Option<String>)
        ensures
            match (s, written(self@)) {
                (Some(found), Some(expected)) => found@ == expected,
                (None, None) => true,
                _ => false,
            },
    {
        match self {
            Object::Nil => Some(String::from_str("nil")),
            Object::Boolean(b) => Some(
                if *b {
                    String::from_str("true")
                } else {
                    String::from_str("false")
                },
            ),
            Object::Number(_) => None,
            Object::String(s) => Some(s.clone()),
            Object::NativeFunction(f) => {
                let mut s = String::from_str("<native fn ");
                push_str(&mut s, f.name.as_str());
                push_str(&mut s, ">");
                Some(s)
            },
            Object::Function(f) => {
                let mut s = String::from_str("<fn ");
                push_str(&mut s, f.name.as_str());
                push_str(&mut s, ">");
                Some(s)
            },
        }
    }
}

/// Comparing numbers is a strict order with its equality: no number is below
/// itself, at most one of below, same and above holds, NaN compares with
/// nothing, and the two zeros are the same.
pub proof fn lemma_number_order(a: Number, b: Number, c: Number)
    ensures
        !a.below(a),
        !(a.below(b) && b.below(a)),
        !(a.below(b) && a.same(b)),
        a.below(b) && b.below(c) ==> a.below(c),
        a.same(b) == b.same(a),
        a.nan() ==> !a.same(a) && !a.below(b) && !b.below(a),
        !a.nan() ==> a.same(a),
        !a.nan() && !b.nan() ==> a.below(b) || a.same(b) || b.below(a),
        a.zero() && b.zero() ==> a.same(b),
{
    let x = a.bits;
    let y = b.bits;
    assert(x & !SIGN_BIT == 0 ==> !(x & EXPONENT_BITS == EXPONENT_BITS && x & FRACTION_BITS != 0))
        by (bit_vector);
    assert(y & !SIGN_BIT == 0 ==> !(y & EXPONENT_BITS == EXPONENT_BITS && y & FRACTION_BITS != 0))
        by (bit_vector);
}

/// Negating twice gives the number back, and negating keeps NaN apart from
/// numbers and turns the number line around.
pub proof fn lemma_negation(a: Number, b: Number)
    ensures
        a.flipped().flipped() == a,
        a.flipped().nan() == a.nan(),
        a.flipped().key() == -a.key(),
        a.below(b) == b.flipped().below(a.flipped()),
{
    let x = a.bits;
    let y = b.bits;
    assert((x ^ SIGN_BIT) ^ SIGN_BIT == x) by (bit_vector);
    assert((x ^ SIGN_BIT) & EXPONENT_BITS == x & EXPONENT_BITS) by (bit_vector);
    assert((x ^ SIGN_BIT) & FRACTION_BITS == x & FRACTION_BITS) by (bit_vector);
    assert((x ^ SIGN_BIT) & !SIGN_BIT == x & !SIGN_BIT) by (bit_vector);
    assert(((x ^ SIGN_BIT) & SIGN_BIT != 0) == (x & SIGN_BIT == 0)) by (bit_vector);
    assert((y ^ SIGN_BIT) & EXPONENT_BITS == y & EXPONENT_BITS) by (bit_vector);
    assert((y ^ SIGN_BIT) & FRACTION_BITS == y & FRACTION_BITS) by (bit_vector);
    assert((y ^ SIGN_BIT) & !SIGN_BIT == y & !SIGN_BIT) by (bit_vector);
    assert(((y ^ SIGN_BIT) & SIGN_BIT != 0) == (y & SIGN_BIT == 0)) by (bit_vector);
}

} // verus!
