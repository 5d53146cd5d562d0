//! Runtime values and runtime errors.

use vstd::prelude::*;

use crate::instruction;
use crate::number::num_ok;

verus! {

/// A runtime value. Numbers and strings carry their bytes; a function
/// value names its constant by index into the module's pool, so two
/// function values are identical exactly when they name the same constant.
#[derive(Clone, Debug, PartialEq, Eq)]
pub enum Value {
    Unit,
    Bool(bool),
    Number(Vec<u8>),
    String(Vec<u8>),
    Function(usize),
}

/// The ghost view of a runtime value.
pub enum ValueV {
    Unit,
    Bool(bool),
    Number(Seq<u8>),
    String(Seq<u8>),
    Function(int),
}

pub open spec fn vview(v: Value) -> ValueV {
    match v {
        Value::Unit => ValueV::Unit,
        Value::Bool(b) => ValueV::Bool(b),
        Value::Number(b) => ValueV::Number(b@),
        Value::String(b) => ValueV::String(b@),
        Value::Function(i) => ValueV::Function(i as int),
    }
}

/// A number value must hold a parseable decimal text; every value the
/// machine produces satisfies this.
pub open spec fn value_ok(v: Value) -> bool {
    v matches Value::Number(b) ==> num_ok(b@)
}

/// The kind of operand an instruction demanded and did not find.
#[derive(Clone, Copy, Debug, PartialEq, Eq, Structural)]
pub enum ExpectedKind {
    Bool,
    Number,
    String,
    Function,
    /// A number with zero fractional part.
    IntegralNumber,
    /// An integral number that also fits a machine-sized signed integer
    /// and is not negative, as the right side of a shift must.
    SmallIntegralNumber,
}

/// Runtime errors.
#[derive(Clone, Debug, PartialEq, Eq)]
pub enum Error {
    /// A global name is not bound; carries the name's bytes.
    NameError(Vec<u8>),
    /// An operand had the wrong kind.
    TypeError(ExpectedKind),
    /// A call's argument count does not match the callee's arity; carries
    /// the expected and the given count.
    ValueError(usize, usize),
    /// Division or remainder by zero.
    DivisionByZero,
    /// A language construct with no runtime semantics yet.
    Unsupported(RuntimeUnsupported),
    /// An internal fault: malformed bytecode or broken bookkeeping.
    Internal(InternalError),
}

/// Constructs the runtime rejects.
#[derive(Clone, Copy, Debug, PartialEq, Eq, Structural)]
pub enum RuntimeUnsupported {
    /// A write to a binding in the global scope.
    GlobalMutation,
    /// Struct field access.
    FieldAccess,
}

/// Internal runtime faults.
#[derive(Clone, Copy, Debug, PartialEq, Eq, Structural)]
pub enum InternalError {
    /// A constant index outside the pool; carries the index and the pool
    /// length.
    InvalidConstant(usize, usize),
    /// A local slot outside the current frame.
    InvalidLocal(usize),
    /// A constant of the wrong kind at the given index.
    InvalidConstantType(usize),
    /// A pop from an empty stack, or an out-of-range stack index.
    EmptyStack,
    /// The instruction stream is malformed.
    InvalidBytecode(instruction::Error),
    /// A jump to a byte offset outside the function body.
    InvalidJump,
    /// A call frame did not end with exactly one result above its locals.
    UnbalancedFrame,
    /// The step budget ran out before the program ended.
    ExecutionLimit,
}

pub type Result<T> = core::result::Result<T, Error>;

impl Value {
    pub fn unit() -> (r: Value)
        ensures
            r == Value::Unit,
    {
        Value::Unit
    }

    pub fn bool(value: bool) -> (r: Value)
        ensures
            r == Value::Bool(value),
    {
        Value::Bool(value)
    }

    pub fn number(value: Vec<u8>) -> (r: Value)
        ensures
            r == Value::Number(value),
    {
        Value::Number(value)
    }

    pub fn string(value: Vec<u8>) -> (r: Value)
        ensures
            r == Value::String(value),
    {
        Value::String(value)
    }

    /// A copy of this value, indistinguishable from it: same variant,
    /// same bytes or index.
    pub fn duplicate(&self) -> (r: Value)
        ensures
            vview(r) == vview(*self),
            value_ok(*self) ==> value_ok(r),
    {
        match self {
            Value::Unit => Value::Unit,
            Value::Bool(b) => Value::Bool(*b),
            Value::Number(b) => Value::Number(copy_bytes(b)),
            Value::String(b) => Value::String(copy_bytes(b)),
            Value::Function(i) => Value::Function(*i),
        }
    }

    pub fn is_unit(&self) -> (r: bool)
        ensures
            r == (*self is Unit),
    {
        matches!(self, Value::Unit)
    }

    /// The boolean this value holds; `TypeError` if it is no boolean.
    pub fn as_bool(&self) -> (r: Result<bool>)
        ensures
            match r {
                Ok(b) => *self == Value::Bool(b),
                Err(e) => !(*self is Bool) && e == Error::TypeError(ExpectedKind::Bool),
            },
    {
        match self {
            Value::Bool(b) => Ok(*b),
            _ => Err(Error::TypeError(ExpectedKind::Bool)),
        }
    }

    /// The decimal text of the number this value holds; `TypeError` if it
    /// is no number.
    pub fn as_number(&self) -> (r: Result<&Vec<u8>>)
        ensures
            match r {
                Ok(b) => *self == Value::Number(*b),
                Err(e) => !(*self is Number) && e == Error::TypeError(ExpectedKind::Number),
            },
    {
        match self {
            Value::Number(b) => Ok(b),
            _ => Err(Error::TypeError(ExpectedKind::Number)),
        }
    }

    /// The bytes of the string this value holds; `TypeError` if it is no
    /// string.
    pub fn as_string(&self) -> (r: Result<&Vec<u8>>)
        ensures
            match r {
                Ok(b) => *self == Value::String(*b),
                Err(e) => !(*self is String) && e == Error::TypeError(ExpectedKind::String),
            },
    {
        match self {
            Value::String(b) => Ok(b),
            _ => Err(Error::TypeError(ExpectedKind::String)),
        }
    }

    /// The constant index of the function this value names; `TypeError` if
    /// it is no function.
    pub fn as_function(&self) -> (r: Result<usize>)
        ensures
            match r {
                Ok(i) => *self == Value::Function(i),
                Err(e) => !(*self is Function) && e == Error::TypeError(ExpectedKind::Function),
            },
    {
        match self {
            Value::Function(i) => Ok(*i),
            _ => Err(Error::TypeError(ExpectedKind::Function)),
        }
    }
}

/// A byte-for-byte copy of a byte vector.
pub fn copy_bytes(b: &Vec<u8>) -> (r: Vec<u8>)
    ensures
        r@ == b@,
{
    let n = b.len();
    let mut out: Vec<u8> = Vec::new();
    let mut i: usize = 0;
    while i < n
        invariant
            0 <= i <= n,
            n == b@.len(),
            out@ == b@.subrange(0, i as int),
        decreases n - i,
    {
        out.push(b[i]);
        i = i + 1;
        proof {
            assert(out@ =~= b@.subrange(0, i as int));
        }
    }
    proof {
        assert(out@ =~= b@);
    }
    out
}

} // verus!
