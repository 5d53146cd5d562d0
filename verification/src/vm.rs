//! The stack-based virtual machine: call dispatch over a shared operand
//! stack, opcode execution, and arithmetic, comparison and bitwise
//! semantics on arbitrary-precision decimals.

use vstd::prelude::*;

use crate::ast::{BinaryOperator, UnaryOperator};
use crate::instruction::{decode_at, InlineConstant, Instruction, Offset};
use crate::module::{bytes_eq, cview, Constant, ConstantV, Module};
use crate::number::{
    num_add, num_add_of, num_and_of, num_bitand, num_bitor, num_bitxor, num_cmp, num_cmp_of,
    num_div, num_div_of, num_i64_of, num_is_int_of, num_is_integer, num_is_zero, num_is_zero_of,
    num_mul, num_mul_of, num_neg, num_neg_of, num_or_of, num_rem, num_rem_of, num_shl,
    num_shl_of, num_shr, num_shr_of, num_sub, num_sub_of, num_to_i64, num_xor_of,
};
use crate::stack::Stack;
use crate::strings::str_to_bytes;
use crate::value::{
    copy_bytes, value_ok, vview, Error, ExpectedKind, InternalError, Result, RuntimeUnsupported,
    Value, ValueV,
};

verus! {

// ---------------------------------------------------------------------------
// Operator semantics, at spec level
// ---------------------------------------------------------------------------

/// The value a unary operation yields, or the exact error it raises:
/// `Negate` requires a number, `Not` a boolean.
pub open spec fn spec_unary_value(op: UnaryOperator, v: ValueV) -> core::result::Result<
    ValueV,
    Error,
> {
    match op {
        UnaryOperator::Negate => match v {
            ValueV::Number(b) => Ok(ValueV::Number(num_neg_of(b))),
            _ => Err(Error::TypeError(ExpectedKind::Number)),
        },
        UnaryOperator::Not => match v {
            ValueV::Bool(b) => Ok(ValueV::Bool(!b)),
            _ => Err(Error::TypeError(ExpectedKind::Bool)),
        },
    }
}

/// Equality of two runtime values: unit equals unit, booleans and strings
/// compare by value, numbers by numeric value, functions by identity of
/// the constant they name; values of different kinds are unequal.
pub open spec fn spec_values_equal(l: ValueV, r: ValueV) -> bool {
    match (l, r) {
        (ValueV::Unit, ValueV::Unit) => true,
        (ValueV::Bool(a), ValueV::Bool(b)) => a == b,
        (ValueV::Number(a), ValueV::Number(b)) => num_cmp_of(a, b) == 0,
        (ValueV::String(a), ValueV::String(b)) => a == b,
        (ValueV::Function(a), ValueV::Function(b)) => a == b,
        _ => false,
    }
}

/// The value a binary operation yields for `left op right`, or the exact
/// error it raises. Arithmetic and comparisons require numbers; division
/// and remainder also a nonzero divisor; shifts and bitwise operations
/// require integer-valued numbers, and the right side of a shift must be
/// non-negative and fit a machine-sized integer.
pub open spec fn spec_binary_value(op: BinaryOperator, l: ValueV, r: ValueV) -> core::result::Result<
    ValueV,
    Error,
> {
    match op {
        BinaryOperator::Multiply => match (l, r) {
            (ValueV::Number(a), ValueV::Number(b)) => Ok(ValueV::Number(num_mul_of(a, b))),
            _ => Err(Error::TypeError(ExpectedKind::Number)),
        },
        BinaryOperator::Divide => match (l, r) {
            (ValueV::Number(a), ValueV::Number(b)) => if num_is_zero_of(b) {
                Err(Error::DivisionByZero)
            } else {
                Ok(ValueV::Number(num_div_of(a, b)))
            },
            _ => Err(Error::TypeError(ExpectedKind::Number)),
        },
        BinaryOperator::Modulo => match (l, r) {
            (ValueV::Number(a), ValueV::Number(b)) => if num_is_zero_of(b) {
                Err(Error::DivisionByZero)
            } else {
                Ok(ValueV::Number(num_rem_of(a, b)))
            },
            _ => Err(Error::TypeError(ExpectedKind::Number)),
        },
        BinaryOperator::Add => match (l, r) {
            (ValueV::Number(a), ValueV::Number(b)) => Ok(ValueV::Number(num_add_of(a, b))),
            _ => Err(Error::TypeError(ExpectedKind::Number)),
        },
        BinaryOperator::Subtract => match (l, r) {
            (ValueV::Number(a), ValueV::Number(b)) => Ok(ValueV::Number(num_sub_of(a, b))),
            _ => Err(Error::TypeError(ExpectedKind::Number)),
        },
        BinaryOperator::RightShift => spec_shift_value(l, r, false),
        BinaryOperator::LeftShift => spec_shift_value(l, r, true),
        BinaryOperator::BitAnd => match spec_int_operands(l, r) {
            Ok((a, b)) => Ok(ValueV::Number(num_and_of(a, b))),
            Err(e) => Err(e),
        },
        BinaryOperator::BitXor => match spec_int_operands(l, r) {
            Ok((a, b)) => Ok(ValueV::Number(num_xor_of(a, b))),
            Err(e) => Err(e),
        },
        BinaryOperator::BitOr => match spec_int_operands(l, r) {
            Ok((a, b)) => Ok(ValueV::Number(num_or_of(a, b))),
            Err(e) => Err(e),
        },
        BinaryOperator::Equals => Ok(ValueV::Bool(spec_values_equal(l, r))),
        BinaryOperator::NotEquals => Ok(ValueV::Bool(!spec_values_equal(l, r))),
        BinaryOperator::Greater => match (l, r) {
            (ValueV::Number(a), ValueV::Number(b)) => Ok(ValueV::Bool(num_cmp_of(a, b) > 0)),
            _ => Err(Error::TypeError(ExpectedKind::Number)),
        },
        BinaryOperator::GreaterEquals => match (l, r) {
            (ValueV::Number(a), ValueV::Number(b)) => Ok(ValueV::Bool(num_cmp_of(a, b) >= 0)),
            _ => Err(Error::TypeError(ExpectedKind::Number)),
        },
        BinaryOperator::Less => match (l, r) {
            (ValueV::Number(a), ValueV::Number(b)) => Ok(ValueV::Bool(num_cmp_of(a, b) < 0)),
            _ => Err(Error::TypeError(ExpectedKind::Number)),
        },
        BinaryOperator::LessEquals => match (l, r) {
            (ValueV::Number(a), ValueV::Number(b)) => Ok(ValueV::Bool(num_cmp_of(a, b) <= 0)),
            _ => Err(Error::TypeError(ExpectedKind::Number)),
        },
    }
}

/// Both operands as integer-valued numbers, or the first error raised
/// checking them, left first.
pub open spec fn spec_int_operands(l: ValueV, r: ValueV) -> core::result::Result<
    (Seq<u8>, Seq<u8>),
    Error,
> {
    match l {
        ValueV::Number(a) => if !num_is_int_of(a) {
            Err(Error::TypeError(ExpectedKind::IntegralNumber))
        } else {
            match r {
                ValueV::Number(b) => if !num_is_int_of(b) {
                    Err(Error::TypeError(ExpectedKind::IntegralNumber))
                } else {
                    Ok((a, b))
                },
                _ => Err(Error::TypeError(ExpectedKind::Number)),
            }
        },
        _ => Err(Error::TypeError(ExpectedKind::Number)),
    }
}

/// A shift: the left side must be an integer-valued number; the right side
/// an integer-valued number that is non-negative and fits a machine-sized
/// integer.
pub open spec fn spec_shift_value(l: ValueV, r: ValueV, left_shift: bool) -> core::result::Result<
    ValueV,
    Error,
> {
    match l {
        ValueV::Number(a) => if !num_is_int_of(a) {
            Err(Error::TypeError(ExpectedKind::IntegralNumber))
        } else {
            match r {
                ValueV::Number(b) => if !num_is_int_of(b) {
                    Err(Error::TypeError(ExpectedKind::IntegralNumber))
                } else {
                    match num_i64_of(b) {
                        Option::Some(s) => if s < 0 {
                            Err(Error::TypeError(ExpectedKind::SmallIntegralNumber))
                        } else {
                            if left_shift {
                                Ok(ValueV::Number(num_shl_of(a, s as u64)))
                            } else {
                                Ok(ValueV::Number(num_shr_of(a, s as u64)))
                            }
                        },
                        Option::None => Err(Error::TypeError(ExpectedKind::SmallIntegralNumber)),
                    }
                },
                _ => Err(Error::TypeError(ExpectedKind::Number)),
            }
        },
        _ => Err(Error::TypeError(ExpectedKind::Number)),
    }
}

// ---------------------------------------------------------------------------
// Operator semantics, executable
// ---------------------------------------------------------------------------

/// Apply a unary operator to a value.
fn eval_unary(op: UnaryOperator, v: &Value) -> (r: Result<Value>)
    requires
        value_ok(*v),
    ensures
        match r {
            Ok(out) => spec_unary_value(op, vview(*v)) == Ok::<ValueV, Error>(vview(out))
                && value_ok(out),
            Err(e) => spec_unary_value(op, vview(*v)) == Err::<ValueV, Error>(e),
        },
{
    match op {
        UnaryOperator::Negate => match v {
            Value::Number(b) => Ok(Value::Number(num_neg(b))),
            _ => Err(Error::TypeError(ExpectedKind::Number)),
        },
        UnaryOperator::Not => match v {
            Value::Bool(b) => Ok(Value::Bool(!*b)),
            _ => Err(Error::TypeError(ExpectedKind::Bool)),
        },
    }
}

/// Whether two runtime values are equal.
fn values_equal(l: &Value, r: &Value) -> (res: bool)
    requires
        value_ok(*l),
        value_ok(*r),
    ensures
        res == spec_values_equal(vview(*l), vview(*r)),
{
    match (l, r) {
        (Value::Unit, Value::Unit) => true,
        (Value::Bool(a), Value::Bool(b)) => *a == *b,
        (Value::Number(a), Value::Number(b)) => num_cmp(a, b) == 0,
        (Value::String(a), Value::String(b)) => bytes_eq(a, b),
        (Value::Function(a), Value::Function(b)) => *a == *b,
        _ => false,
    }
}

/// Apply a binary operator to `left op right`.
fn eval_binary(op: BinaryOperator, l: &Value, r: &Value) -> (res: Result<Value>)
    requires
        value_ok(*l),
        value_ok(*r),
    ensures
        match res {
            Ok(out) => spec_binary_value(op, vview(*l), vview(*r)) == Ok::<ValueV, Error>(
                vview(out),
            ) && value_ok(out),
            Err(e) => spec_binary_value(op, vview(*l), vview(*r)) == Err::<ValueV, Error>(e),
        },
{
    match op {
        BinaryOperator::Multiply => match (l, r) {
            (Value::Number(a), Value::Number(b)) => Ok(Value::Number(num_mul(a, b))),
            _ => Err(Error::TypeError(ExpectedKind::Number)),
        },
        BinaryOperator::Divide => match (l, r) {
            (Value::Number(a), Value::Number(b)) => {
                if num_is_zero(b) {
                    Err(Error::DivisionByZero)
                } else {
                    Ok(Value::Number(num_div(a, b)))
                }
            },
            _ => Err(Error::TypeError(ExpectedKind::Number)),
        },
        BinaryOperator::Modulo => match (l, r) {
            (Value::Number(a), Value::Number(b)) => {
                if num_is_zero(b) {
                    Err(Error::DivisionByZero)
                } else {
                    Ok(Value::Number(num_rem(a, b)))
                }
            },
            _ => Err(Error::TypeError(ExpectedKind::Number)),
        },
        BinaryOperator::Add => match (l, r) {
            (Value::Number(a), Value::Number(b)) => Ok(Value::Number(num_add(a, b))),
            _ => Err(Error::TypeError(ExpectedKind::Number)),
        },
        BinaryOperator::Subtract => match (l, r) {
            (Value::Number(a), Value::Number(b)) => Ok(Value::Number(num_sub(a, b))),
            _ => Err(Error::TypeError(ExpectedKind::Number)),
        },
        BinaryOperator::RightShift => eval_shift(l, r, false),
        BinaryOperator::LeftShift => eval_shift(l, r, true),
        BinaryOperator::BitAnd => match l {
            Value::Number(a) => {
                if !num_is_integer(a) {
                    Err(Error::TypeError(ExpectedKind::IntegralNumber))
                } else {
                    match r {
                        Value::Number(b) => {
                            if !num_is_integer(b) {
                                Err(Error::TypeError(ExpectedKind::IntegralNumber))
                            } else {
                                Ok(Value::Number(num_bitand(a, b)))
                            }
                        },
                        _ => Err(Error::TypeError(ExpectedKind::Number)),
                    }
                }
            },
            _ => Err(Error::TypeError(ExpectedKind::Number)),
        },
        BinaryOperator::BitXor => match l {
            Value::Number(a) => {
                if !num_is_integer(a) {
                    Err(Error::TypeError(ExpectedKind::IntegralNumber))
                } else {
                    match r {
                        Value::Number(b) => {
                            if !num_is_integer(b) {
                                Err(Error::TypeError(ExpectedKind::IntegralNumber))
                            } else {
                                Ok(Value::Number(num_bitxor(a, b)))
                            }
                        },
                        _ => Err(Error::TypeError(ExpectedKind::Number)),
                    }
                }
            },
            _ => Err(Error::TypeError(ExpectedKind::Number)),
        },
        BinaryOperator::BitOr => match l {
            Value::Number(a) => {
                if !num_is_integer(a) {
                    Err(Error::TypeError(ExpectedKind::IntegralNumber))
                } else {
                    match r {
                        Value::Number(b) => {
                            if !num_is_integer(b) {
                                Err(Error::TypeError(ExpectedKind::IntegralNumber))
                            } else {
                                Ok(Value::Number(num_bitor(a, b)))
                            }
                        },
                        _ => Err(Error::TypeError(ExpectedKind::Number)),
                    }
                }
            },
            _ => Err(Error::TypeError(ExpectedKind::Number)),
        },
        BinaryOperator::Equals => Ok(Value::Bool(values_equal(l, r))),
        BinaryOperator::NotEquals => Ok(Value::Bool(!values_equal(l, r))),
        BinaryOperator::Greater => match (l, r) {
            (Value::Number(a), Value::Number(b)) => Ok(Value::Bool(num_cmp(a, b) > 0)),
            _ => Err(Error::TypeError(ExpectedKind::Number)),
        },
        BinaryOperator::GreaterEquals => match (l, r) {
            (Value::Number(a), Value::Number(b)) => Ok(Value::Bool(num_cmp(a, b) >= 0)),
            _ => Err(Error::TypeError(ExpectedKind::Number)),
        },
        BinaryOperator::Less => match (l, r) {
            (Value::Number(a), Value::Number(b)) => Ok(Value::Bool(num_cmp(a, b) < 0)),
            _ => Err(Error::TypeError(ExpectedKind::Number)),
        },
        BinaryOperator::LessEquals => match (l, r) {
            (Value::Number(a), Value::Number(b)) => Ok(Value::Bool(num_cmp(a, b) <= 0)),
            _ => Err(Error::TypeError(ExpectedKind::Number)),
        },
    }
}

fn eval_shift(l: &Value, r: &Value, left_shift: bool) -> (res: Result<Value>)
    requires
        value_ok(*l),
        value_ok(*r),
    ensures
        match res {
            Ok(out) => spec_shift_value(vview(*l), vview(*r), left_shift) == Ok::<ValueV, Error>(
                vview(out),
            ) && value_ok(out),
            Err(e) => spec_shift_value(vview(*l), vview(*r), left_shift) == Err::<ValueV, Error>(e),
        },
{
    let a = match l {
        Value::Number(a) => a,
        _ => {
            return Err(Error::TypeError(ExpectedKind::Number));
        },
    };
    if !num_is_integer(a) {
        return Err(Error::TypeError(ExpectedKind::IntegralNumber));
    }
    let b = match r {
        Value::Number(b) => b,
        _ => {
            return Err(Error::TypeError(ExpectedKind::Number));
        },
    };
    if !num_is_integer(b) {
        return Err(Error::TypeError(ExpectedKind::IntegralNumber));
    }
    let s = match num_to_i64(b) {
        Some(s) => s,
        None => {
            return Err(Error::TypeError(ExpectedKind::SmallIntegralNumber));
        },
    };
    if s < 0 {
        return Err(Error::TypeError(ExpectedKind::SmallIntegralNumber));
    }
    if left_shift {
        Ok(Value::Number(num_shl(a, s as u64)))
    } else {
        Ok(Value::Number(num_shr(a, s as u64)))
    }
}

// ---------------------------------------------------------------------------
// The machine
// ---------------------------------------------------------------------------

/// Every value on the operand stack is well formed.
pub open spec fn stack_ok(s: Seq<Value>) -> bool {
    forall|i: int| 0 <= i < s.len() ==> value_ok(#[trigger] s[i])
}

/// The runtime value a constant denotes: numbers and strings carry their
/// bytes; a function constant at index `idx` is named by that index.
pub open spec fn spec_value_of_constant(c: ConstantV, idx: int) -> ValueV {
    match c {
        ConstantV::Number(b) => ValueV::Number(b),
        ConstantV::String(b) => ValueV::String(b),
        ConstantV::Function(_) => ValueV::Function(idx),
    }
}

/// The ghost view of a runtime error, with byte payloads as sequences.
pub enum ErrorV {
    NameError(Seq<u8>),
    TypeError(ExpectedKind),
    ValueError(usize, usize),
    DivisionByZero,
    Unsupported(RuntimeUnsupported),
    Internal(InternalError),
}

pub open spec fn everr(e: Error) -> ErrorV {
    match e {
        Error::NameError(n) => ErrorV::NameError(n@),
        Error::TypeError(k) => ErrorV::TypeError(k),
        Error::ValueError(a, b) => ErrorV::ValueError(a, b),
        Error::DivisionByZero => ErrorV::DivisionByZero,
        Error::Unsupported(u) => ErrorV::Unsupported(u),
        Error::Internal(i) => ErrorV::Internal(i),
    }
}

/// The ghost view of a call frame.
pub struct FrameV {
    pub offset: int,
    pub arity: int,
    pub body: Seq<u8>,
    pub pc: int,
}

/// The ghost view of the machine's mutable state: the operand stack and
/// the frame stack.
pub struct StateV {
    pub stack: Seq<ValueV>,
    pub frames: Seq<FrameV>,
}

/// The views of the values on a stack, in order.
pub open spec fn svv(s: Seq<Value>) -> Seq<ValueV> {
    Seq::new(s.len(), |i: int| vview(s[i]))
}

proof fn lemma_svv_push(s: Seq<Value>, v: Value)
    ensures
        svv(s.push(v)) == svv(s).push(vview(v)),
{
    assert(svv(s.push(v)) =~= svv(s).push(vview(v)));
}

proof fn lemma_svv_drop_last(s: Seq<Value>)
    requires
        s.len() >= 1,
    ensures
        svv(s.drop_last()) == svv(s).drop_last(),
{
    assert(svv(s.drop_last()) =~= svv(s).drop_last());
}

proof fn lemma_svv_subrange(s: Seq<Value>, a: int, b: int)
    requires
        0 <= a <= b <= s.len(),
    ensures
        svv(s.subrange(a, b)) == svv(s).subrange(a, b),
{
    assert(svv(s.subrange(a, b)) =~= svv(s).subrange(a, b));
}

proof fn lemma_svv_update(s: Seq<Value>, i: int, v: Value)
    requires
        0 <= i < s.len(),
    ensures
        svv(s.update(i, v)) == svv(s).update(i, vview(v)),
{
    assert(svv(s.update(i, v)) =~= svv(s).update(i, vview(v)));
}

proof fn lemma_svv_remove(s: Seq<Value>, i: int)
    requires
        0 <= i < s.len(),
    ensures
        svv(s.remove(i)) == svv(s).remove(i),
{
    assert(svv(s.remove(i)) =~= svv(s).remove(i));
}

/// One call frame: the absolute stack index where its locals begin, the
/// callee's arity, its body bytes and the byte offset of the next
/// instruction.
struct Frame {
    offset: usize,
    arity: usize,
    body: Vec<u8>,
    pc: usize,
}

spec fn fview(f: Frame) -> FrameV {
    FrameV { offset: f.offset as int, arity: f.arity as int, body: f.body@, pc: f.pc as int }
}

/// The views of a stack of frames, in order.
spec fn fvv(s: Seq<Frame>) -> Seq<FrameV> {
    Seq::new(s.len(), |i: int| fview(s[i]))
}

proof fn lemma_fvv_push(s: Seq<Frame>, f: Frame)
    ensures
        fvv(s.push(f)) == fvv(s).push(fview(f)),
{
    assert(fvv(s.push(f)) =~= fvv(s).push(fview(f)));
}

proof fn lemma_fvv_drop_last(s: Seq<Frame>)
    requires
        s.len() >= 1,
    ensures
        fvv(s.drop_last()) == fvv(s).drop_last(),
{
    assert(fvv(s.drop_last()) =~= fvv(s).drop_last());
}

// ---------------------------------------------------------------------------
// The machine, at spec level
// ---------------------------------------------------------------------------

/// Open a call frame: the callee is pulled out from under its `arity`
/// arguments, must name a function constant of matching arity, and its
/// body becomes the new topmost frame.
pub open spec fn spec_begin_call(
    m: Module,
    stack: Seq<ValueV>,
    frames: Seq<FrameV>,
    arity: int,
) -> core::result::Result<StateV, Error> {
    if stack.len() < arity + 1 {
        Err(Error::Internal(InternalError::EmptyStack))
    } else {
        let offset = stack.len() - arity - 1;
        let stack2 = stack.remove(offset);
        match stack[offset] {
            ValueV::Function(fidx) => if fidx >= m.constants@.len() {
                Err(
                    Error::Internal(
                        InternalError::InvalidConstant(
                            fidx as usize,
                            m.constants@.len() as usize,
                        ),
                    ),
                )
            } else {
                match m.constants@[fidx] {
                    Constant::Function(f) => if arity != f.arity as int {
                        Err(Error::ValueError(f.arity as usize, arity as usize))
                    } else {
                        Ok(
                            StateV {
                                stack: stack2,
                                frames: frames.push(
                                    FrameV { offset, arity, body: f.body@, pc: 0 },
                                ),
                            },
                        )
                    },
                    _ => Err(
                        Error::Internal(InternalError::InvalidConstantType(fidx as usize)),
                    ),
                }
            },
            _ => Err(Error::TypeError(ExpectedKind::Function)),
        }
    }
}

/// Close a frame: exactly one result must stand above the frame's locals;
/// the locals are drained from under it.
pub open spec fn spec_finish_frame(stack: Seq<ValueV>, offset: int, arity: int) -> core::result::Result<
    Seq<ValueV>,
    Error,
> {
    if !(stack.len() >= 1 && offset <= stack.len() - 1 && stack.len() - 1 - offset == arity) {
        Err(Error::Internal(InternalError::UnbalancedFrame))
    } else {
        Ok(stack.subrange(0, offset).push(stack.last()))
    }
}

/// One step of the machine: close the topmost frame if its body is spent,
/// else decode and execute the instruction at its cursor.
pub open spec fn spec_step(m: Module, st: StateV) -> core::result::Result<StateV, ErrorV>
    recommends
        st.frames.len() > 0,
{
    let fr = st.frames.last();
    let rest = st.frames.drop_last();
    let stack = st.stack;
    if fr.pc >= fr.body.len() {
        match spec_finish_frame(stack, fr.offset, fr.arity) {
            Ok(s2) => Ok(StateV { stack: s2, frames: rest }),
            Err(e) => Err(everr(e)),
        }
    } else {
        match crate::instruction::spec_decode(fr.body, fr.pc) {
            Err(e) => Err(ErrorV::Internal(InternalError::InvalidBytecode(e))),
            Ok((ins, next)) => {
                let fr2 = FrameV { offset: fr.offset, arity: fr.arity, body: fr.body, pc: next };
                match ins {
                    Instruction::Constant(k) => if k >= m.constants@.len() {
                        Err(
                            ErrorV::Internal(
                                InternalError::InvalidConstant(k, m.constants@.len() as usize),
                            ),
                        )
                    } else {
                        Ok(
                            StateV {
                                stack: stack.push(
                                    spec_value_of_constant(
                                        cview(m.constants@[k as int]),
                                        k as int,
                                    ),
                                ),
                                frames: rest.push(fr2),
                            },
                        )
                    },
                    Instruction::InlineConstant(ic) => {
                        let v = match ic {
                            InlineConstant::Unit => ValueV::Unit,
                            InlineConstant::Bool(b) => ValueV::Bool(b),
                        };
                        Ok(StateV { stack: stack.push(v), frames: rest.push(fr2) })
                    },
                    Instruction::Unary(op) => if stack.len() < 1 {
                        Err(ErrorV::Internal(InternalError::EmptyStack))
                    } else {
                        match spec_unary_value(op, stack.last()) {
                            Ok(out) => Ok(
                                StateV {
                                    stack: stack.drop_last().push(out),
                                    frames: rest.push(fr2),
                                },
                            ),
                            Err(e) => Err(everr(e)),
                        }
                    },
                    Instruction::Binary(op) => if stack.len() < 2 {
                        Err(ErrorV::Internal(InternalError::EmptyStack))
                    } else {
                        match spec_binary_value(op, stack[stack.len() - 2], stack.last()) {
                            Ok(out) => Ok(
                                StateV {
                                    stack: stack.subrange(0, stack.len() - 2).push(out),
                                    frames: rest.push(fr2),
                                },
                            ),
                            Err(e) => Err(everr(e)),
                        }
                    },
                    Instruction::LoadLocal(i) => if fr.offset >= stack.len() || i >= stack.len()
                        - fr.offset {
                        Err(ErrorV::Internal(InternalError::InvalidLocal(i)))
                    } else {
                        Ok(
                            StateV {
                                stack: stack.push(stack[fr.offset + i]),
                                frames: rest.push(fr2),
                            },
                        )
                    },
                    Instruction::StoreLocal(i) => if stack.len() < 1 {
                        Err(ErrorV::Internal(InternalError::EmptyStack))
                    } else {
                        let popped = stack.drop_last();
                        if fr.offset >= popped.len() || i >= popped.len() - fr.offset {
                            Err(ErrorV::Internal(InternalError::InvalidLocal(i)))
                        } else {
                            Ok(
                                StateV {
                                    stack: popped.update(fr.offset + i, stack.last()),
                                    frames: rest.push(fr2),
                                },
                            )
                        }
                    },
                    Instruction::LoadNamed(k) => if k >= m.constants@.len() {
                        Err(
                            ErrorV::Internal(
                                InternalError::InvalidConstant(k, m.constants@.len() as usize),
                            ),
                        )
                    } else {
                        match m.constants@[k as int] {
                            Constant::String(b) => match m.spec_global_index(b@) {
                                Option::Some(vi) => if vi as int >= m.constants@.len() {
                                    Err(
                                        ErrorV::Internal(
                                            InternalError::InvalidConstant(
                                                vi as usize,
                                                m.constants@.len() as usize,
                                            ),
                                        ),
                                    )
                                } else {
                                    Ok(
                                        StateV {
                                            stack: stack.push(
                                                spec_value_of_constant(
                                                    cview(m.constants@[vi as int]),
                                                    vi as int,
                                                ),
                                            ),
                                            frames: rest.push(fr2),
                                        },
                                    )
                                },
                                Option::None => Err(ErrorV::NameError(b@)),
                            },
                            _ => Err(ErrorV::Internal(InternalError::InvalidConstantType(k))),
                        }
                    },
                    Instruction::StoreNamed(_) => Err(
                        ErrorV::Unsupported(RuntimeUnsupported::GlobalMutation),
                    ),
                    Instruction::LoadPositionalField(_) => Err(
                        ErrorV::Unsupported(RuntimeUnsupported::FieldAccess),
                    ),
                    Instruction::StorePositionalField(_) => Err(
                        ErrorV::Unsupported(RuntimeUnsupported::FieldAccess),
                    ),
                    Instruction::LoadNamedField(_) => Err(
                        ErrorV::Unsupported(RuntimeUnsupported::FieldAccess),
                    ),
                    Instruction::StoreNamedField(_) => Err(
                        ErrorV::Unsupported(RuntimeUnsupported::FieldAccess),
                    ),
                    Instruction::Pop => if stack.len() < 1 {
                        Err(ErrorV::Internal(InternalError::EmptyStack))
                    } else {
                        Ok(StateV { stack: stack.drop_last(), frames: rest.push(fr2) })
                    },
                    Instruction::PopScope(d) => if fr.offset + d >= stack.len() {
                        Err(ErrorV::Internal(InternalError::EmptyStack))
                    } else {
                        Ok(
                            StateV {
                                stack: stack.subrange(0, fr.offset + d).push(stack.last()),
                                frames: rest.push(fr2),
                            },
                        )
                    },
                    Instruction::Call(n) => match spec_begin_call(
                        m,
                        stack,
                        rest.push(fr2),
                        n as int,
                    ) {
                        Ok(st2) => Ok(st2),
                        Err(e) => Err(everr(e)),
                    },
                    Instruction::Return => if fr.offset + fr.arity >= stack.len() {
                        Err(ErrorV::Internal(InternalError::EmptyStack))
                    } else {
                        let s1 = stack.subrange(0, fr.offset + fr.arity).push(stack.last());
                        match spec_finish_frame(s1, fr.offset, fr.arity) {
                            Ok(s2) => Ok(StateV { stack: s2, frames: rest }),
                            Err(e) => Err(everr(e)),
                        }
                    },
                    Instruction::Jump(off) => {
                        let t = crate::checker::jump_target(next, off);
                        if 0 <= t <= fr.body.len() {
                            Ok(
                                StateV {
                                    stack,
                                    frames: rest.push(
                                        FrameV {
                                            offset: fr.offset,
                                            arity: fr.arity,
                                            body: fr.body,
                                            pc: t,
                                        },
                                    ),
                                },
                            )
                        } else {
                            Err(ErrorV::Internal(InternalError::InvalidJump))
                        }
                    },
                    Instruction::JumpIf(off) => if stack.len() < 1 {
                        Err(ErrorV::Internal(InternalError::EmptyStack))
                    } else {
                        match stack.last() {
                            ValueV::Bool(cond) => {
                                let popped = stack.drop_last();
                                if cond {
                                    let t = crate::checker::jump_target(next, off);
                                    if 0 <= t <= fr.body.len() {
                                        Ok(
                                            StateV {
                                                stack: popped,
                                                frames: rest.push(
                                                    FrameV {
                                                        offset: fr.offset,
                                                        arity: fr.arity,
                                                        body: fr.body,
                                                        pc: t,
                                                    },
                                                ),
                                            },
                                        )
                                    } else {
                                        Err(ErrorV::Internal(InternalError::InvalidJump))
                                    }
                                } else {
                                    Ok(StateV { stack: popped, frames: rest.push(fr2) })
                                }
                            },
                            _ => Err(ErrorV::TypeError(ExpectedKind::Bool)),
                        }
                    },
                }
            },
        }
    }
}

/// Run the machine until no frame is left, or the step budget is spent.
pub open spec fn spec_run_loop(m: Module, st: StateV, fuel: nat) -> core::result::Result<
    StateV,
    ErrorV,
>
    decreases fuel,
{
    if st.frames.len() == 0 {
        Ok(st)
    } else if fuel == 0 {
        Err(ErrorV::Internal(InternalError::ExecutionLimit))
    } else {
        match spec_step(m, st) {
            Ok(st2) => spec_run_loop(m, st2, (fuel - 1) as nat),
            Err(e) => Err(e),
        }
    }
}

/// The whole run: resolve the global `main`, call it with no arguments,
/// run the loop, and take the one value left on the stack. This is a
/// function of the module, the starting stack and the budget alone, so
/// two runs of the same module agree.
pub open spec fn spec_run(m: Module, stack0: Seq<ValueV>, fuel: nat) -> core::result::Result<
    ValueV,
    ErrorV,
> {
    let name = crate::strings::utf8_bytes_of("main"@);
    match m.spec_global_index(name) {
        Option::None => Err(ErrorV::NameError(name)),
        Option::Some(vi) => if vi as int >= m.constants@.len() {
            Err(
                ErrorV::Internal(
                    InternalError::InvalidConstant(vi as usize, m.constants@.len() as usize),
                ),
            )
        } else {
            let v0 = spec_value_of_constant(cview(m.constants@[vi as int]), vi as int);
            match spec_begin_call(m, stack0.push(v0), Seq::empty(), 0) {
                Err(e) => Err(everr(e)),
                Ok(st) => match spec_run_loop(m, st, fuel) {
                    Err(e) => Err(e),
                    Ok(st2) => if st2.stack.len() == 0 {
                        Err(ErrorV::Internal(InternalError::EmptyStack))
                    } else {
                        Ok(st2.stack.last())
                    },
                },
            }
        },
    }
}

/// Idempotent runs: `run_with_fuel` ensures its outcome equals
/// `spec_run` of the module, the starting stack and the budget — a
/// mathematical function of those three alone — so any two executions of
/// one module from one starting stack with one budget yield the same
/// result; and its contract also says the module is left unchanged.
pub proof fn lemma_run_deterministic(
    m: Module,
    stack0: Seq<ValueV>,
    fuel: nat,
    r1: core::result::Result<ValueV, ErrorV>,
    r2: core::result::Result<ValueV, ErrorV>,
)
    requires
        r1 == spec_run(m, stack0, fuel),
        r2 == spec_run(m, stack0, fuel),
    ensures
        r1 == r2,
{
}

/// The frames below the newly pushed top, as a concrete sequence.
spec fn rest_frames(fs: Seq<Frame>) -> Seq<Frame> {
    fs.drop_last()
}

/// The virtual machine: the module it executes and the operand stack.
pub struct Vm {
    pub module: Module,
    pub stack: Stack,
}

impl Vm {
    pub fn new(module: Module) -> (r: Vm)
        ensures
            r.module == module,
            r.stack@.len() == 0,
    {
        Vm { module, stack: Stack::new() }
    }

    /// The runtime value of constant `index`.
    fn value_at(&self, index: usize) -> (r: Result<Value>)
        requires
            self.module.wf(),
        ensures
            match r {
                Ok(v) => index < self.module.constants@.len() && vview(v) == spec_value_of_constant(
                    cview(self.module.constants@[index as int]),
                    index as int,
                ) && value_ok(v),
                Err(e) => index >= self.module.constants@.len() && e == Error::Internal(
                    InternalError::InvalidConstant(index, self.module.constants@.len() as usize),
                ),
            },
    {
        let n = self.module.constants().len();
        if index >= n {
            return Err(Error::Internal(InternalError::InvalidConstant(index, n)));
        }
        proof {
            assert(crate::module::mview(self.module).constants[index as int] == cview(
                self.module.constants@[index as int],
            ));
        }
        match &self.module.constants()[index] {
            Constant::Number(b) => Ok(Value::Number(copy_bytes(b))),
            Constant::String(b) => Ok(Value::String(copy_bytes(b))),
            Constant::Function(_) => Ok(Value::Function(index)),
        }
    }

    /// Pop the callee out from under its `arity` arguments, check its
    /// arity, and open a frame for its body.
    fn begin_call(&mut self, frames: &mut Vec<Frame>, arity: usize) -> (r: Result<()>)
        requires
            old(self).module.wf(),
            stack_ok(old(self).stack@),
        ensures
            final(self).module == old(self).module,
            match r {
                Ok(()) => stack_ok(final(self).stack@) && spec_begin_call(
                    old(self).module,
                    svv(old(self).stack@),
                    fvv(old(frames)@),
                    arity as int,
                ) == Ok::<StateV, Error>(
                    StateV { stack: svv(final(self).stack@), frames: fvv(final(frames)@) },
                ),
                Err(e) => spec_begin_call(
                    old(self).module,
                    svv(old(self).stack@),
                    fvv(old(frames)@),
                    arity as int,
                ) == Err::<StateV, Error>(e),
            },
    {
        let sl = self.stack.len();
        if sl < 1 || sl - 1 < arity {
            return Err(Error::Internal(InternalError::EmptyStack));
        }
        let offset = sl - 1 - arity;
        let callee = match self.stack.pop_deep(offset) {
            Ok(v) => v,
            Err(e) => {
                return Err(e);
            },
        };
        proof {
            lemma_svv_remove(old(self).stack@, offset as int);
            assert(svv(self.stack@) == svv(old(self).stack@).remove(offset as int));
            assert(vview(callee) == svv(old(self).stack@)[offset as int]);
            assert forall|i: int| 0 <= i < self.stack@.len() implies value_ok(
                #[trigger] self.stack@[i],
            ) by {
                if i < offset {
                    assert(self.stack@[i] == old(self).stack@[i]);
                } else {
                    assert(self.stack@[i] == old(self).stack@[i + 1]);
                }
            }
        }
        let fidx = match callee.as_function() {
            Ok(i) => i,
            Err(e) => {
                return Err(e);
            },
        };
        let n = self.module.constants().len();
        if fidx >= n {
            return Err(Error::Internal(InternalError::InvalidConstant(fidx, n)));
        }
        match &self.module.constants()[fidx] {
            Constant::Function(f) => {
                let want = f.arity() as usize;
                if arity != want {
                    return Err(Error::ValueError(want, arity));
                }
                let body = copy_bytes(f.body());
                let ghost frames0 = frames@;
                frames.push(Frame { offset, arity, body, pc: 0 });
                proof {
                    lemma_fvv_push(frames0, frames@.last());
                    assert(fview(frames@.last()) == FrameV {
                        offset: offset as int,
                        arity: arity as int,
                        body: f.body@,
                        pc: 0,
                    });
                    assert(fvv(frames@) =~= fvv(frames0).push(fview(frames@.last())));
                }
                Ok(())
            },
            _ => Err(Error::Internal(InternalError::InvalidConstantType(fidx))),
        }
    }

    /// Close the current frame: exactly one result must stand above the
    /// frame's locals; the locals are drained from under it.
    fn finish_frame(&mut self, offset: usize, arity: usize) -> (r: Result<()>)
        requires
            stack_ok(old(self).stack@),
        ensures
            final(self).module == old(self).module,
            match r {
                Ok(()) => stack_ok(final(self).stack@) && spec_finish_frame(
                    svv(old(self).stack@),
                    offset as int,
                    arity as int,
                ) == Ok::<Seq<ValueV>, Error>(svv(final(self).stack@)),
                Err(e) => spec_finish_frame(
                    svv(old(self).stack@),
                    offset as int,
                    arity as int,
                ) == Err::<Seq<ValueV>, Error>(e),
            },
    {
        let sl = self.stack.len();
        if !(sl >= 1 && offset <= sl - 1 && sl - 1 - offset == arity) {
            return Err(Error::Internal(InternalError::UnbalancedFrame));
        }
        match self.stack.pop_all_under(offset) {
            Ok(_) => {
                proof {
                    lemma_svv_subrange(old(self).stack@, 0, offset as int);
                    lemma_svv_push(
                        old(self).stack@.subrange(0, offset as int),
                        old(self).stack@.last(),
                    );
                    assert(vview(old(self).stack@.last()) == svv(old(self).stack@).last());
                    assert(svv(self.stack@) == svv(old(self).stack@).subrange(
                        0,
                        offset as int,
                    ).push(svv(old(self).stack@).last()));
                    assert forall|i: int| 0 <= i < self.stack@.len() implies value_ok(
                        #[trigger] self.stack@[i],
                    ) by {
                        if i < offset {
                            assert(self.stack@[i] == old(self).stack@[i]);
                        } else {
                            assert(self.stack@[i] == old(self).stack@.last());
                        }
                    }
                }
                Ok(())
            },
            Err(e) => Err(e),
        }
    }

    /// Execute the module: resolve the global `main`, call it with no
    /// arguments, and run instructions until the program ends or the step
    /// budget does. The result is exactly what the specification-level
    /// machine computes from the module, the starting stack and the
    /// budget — so two runs of one module agree — and the module itself
    /// is never changed by a run.
    #[verifier::rlimit(100)]
    pub fn run_with_fuel(&mut self, fuel: u64) -> (r: Result<Value>)
        requires
            old(self).module.wf(),
            stack_ok(old(self).stack@),
        ensures
            final(self).module == old(self).module,
            match r {
                Ok(v) => spec_run(old(self).module, svv(old(self).stack@), fuel as nat) == Ok::<
                    ValueV,
                    ErrorV,
                >(vview(v)) && value_ok(v),
                Err(e) => spec_run(old(self).module, svv(old(self).stack@), fuel as nat) == Err::<
                    ValueV,
                    ErrorV,
                >(everr(e)),
            },
    {
        let ghost m0 = self.module;
        let ghost res0 = spec_run(m0, svv(self.stack@), fuel as nat);
        let main_name = str_to_bytes("main");
        let vi = match self.module.global_index(&main_name) {
            Some(vi) => vi,
            None => {
                proof {
                    assert(res0 == Err::<ValueV, ErrorV>(ErrorV::NameError(main_name@)));
                }
                return Err(Error::NameError(main_name));
            },
        };
        let v = match self.value_at(vi as usize) {
            Ok(v) => v,
            Err(e) => {
                return Err(e);
            },
        };
        proof {
            assert(stack_ok(self.stack@.push(v)));
            lemma_svv_push(self.stack@, v);
        }
        match self.stack.push(v) {
            Ok(()) => (),
            Err(e) => {
                return Err(e);
            },
        }
        let mut frames: Vec<Frame> = Vec::new();
        proof {
            assert(fvv(frames@) =~= Seq::<FrameV>::empty());
        }
        match self.begin_call(&mut frames, 0) {
            Ok(()) => (),
            Err(e) => {
                return Err(e);
            },
        }
        let ghost st0 = StateV { stack: svv(self.stack@), frames: fvv(frames@) };
        proof {
            assert(res0 == (match spec_run_loop(m0, st0, fuel as nat) {
                Err(e) => Err::<ValueV, ErrorV>(e),
                Ok(st2) => if st2.stack.len() == 0 {
                    Err::<ValueV, ErrorV>(ErrorV::Internal(InternalError::EmptyStack))
                } else {
                    Ok::<ValueV, ErrorV>(st2.stack.last())
                },
            }));
        }
        let mut left = fuel;
        loop
            invariant
                self.module == m0,
                m0 == old(self).module,
                self.module.wf(),
                stack_ok(self.stack@),
                spec_run_loop(
                    m0,
                    StateV { stack: svv(self.stack@), frames: fvv(frames@) },
                    left as nat,
                ) == spec_run_loop(m0, st0, fuel as nat),
                res0 == spec_run(m0, svv(old(self).stack@), fuel as nat),
                res0 == (match spec_run_loop(m0, st0, fuel as nat) {
                    Err(e) => Err::<ValueV, ErrorV>(e),
                    Ok(st2) => if st2.stack.len() == 0 {
                        Err::<ValueV, ErrorV>(ErrorV::Internal(InternalError::EmptyStack))
                    } else {
                        Ok::<ValueV, ErrorV>(st2.stack.last())
                    },
                }),
            ensures
                self.module == m0,
                stack_ok(self.stack@),
                frames@.len() == 0,
                spec_run_loop(m0, st0, fuel as nat) == Ok::<StateV, ErrorV>(
                    StateV { stack: svv(self.stack@), frames: fvv(frames@) },
                ),
                res0 == spec_run(m0, svv(old(self).stack@), fuel as nat),
            decreases left,
        {
            let ghost cur = StateV { stack: svv(self.stack@), frames: fvv(frames@) };
            if frames.len() == 0 {
                proof {
                    assert(spec_run_loop(m0, cur, left as nat) == Ok::<StateV, ErrorV>(cur));
                }
                break;
            }
            if left == 0 {
                proof {
                    assert(spec_run_loop(m0, cur, 0) == Err::<StateV, ErrorV>(
                        ErrorV::Internal(InternalError::ExecutionLimit),
                    ));
                }
                return Err(Error::Internal(InternalError::ExecutionLimit));
            }
            let ghost frames_before = frames@;
            let mut fr = match frames.pop() {
                Some(f) => f,
                None => {
                    proof {
                        assert(false);
                    }
                    return Err(Error::Internal(InternalError::EmptyStack));
                },
            };
            proof {
                lemma_fvv_drop_last(frames_before);
                assert(fview(fr) == cur.frames.last());
                assert(fvv(frames@) == cur.frames.drop_last());
            }
            let ghost rest = cur.frames.drop_last();
            let ghost stepped = spec_step(m0, cur);
            if fr.pc >= fr.body.len() {
                match self.finish_frame(fr.offset, fr.arity) {
                    Ok(()) => (),
                    Err(e) => {
                        proof {
                            assert(stepped == Err::<StateV, ErrorV>(everr(e)));
                        }
                        return Err(e);
                    },
                }
                proof {
                    assert(stepped == Ok::<StateV, ErrorV>(
                        StateV { stack: svv(self.stack@), frames: fvv(frames@) },
                    ));
                }
            } else {
                let ghost pc0 = fr.pc as int;
                let (ins, next) = match decode_at(&fr.body, fr.pc) {
                    Ok(x) => x,
                    Err(e) => {
                        proof {
                            assert(stepped == Err::<StateV, ErrorV>(
                                ErrorV::Internal(InternalError::InvalidBytecode(e)),
                            ));
                        }
                        return Err(Error::Internal(InternalError::InvalidBytecode(e)));
                    },
                };
                fr.pc = next;
                let ghost fr2v = fview(fr);
                proof {
                    assert(fr2v == FrameV {
                        offset: cur.frames.last().offset,
                        arity: cur.frames.last().arity,
                        body: cur.frames.last().body,
                        pc: next as int,
                    });
                }
                match ins {
                    Instruction::Constant(k) => {
                        let v = match self.value_at(k) {
                            Ok(v) => v,
                            Err(e) => {
                                proof {
                                    assert(stepped == Err::<StateV, ErrorV>(everr(e)));
                                }
                                return Err(e);
                            },
                        };
                        proof {
                            assert(stack_ok(self.stack@.push(v)));
                            lemma_svv_push(self.stack@, v);
                        }
                        match self.stack.push(v) {
                            Ok(()) => (),
                            Err(e) => {
                                return Err(e);
                            },
                        }
                        frames.push(fr);
                        proof {
                            lemma_fvv_push(rest_frames(frames@), fr);
                            assert(fvv(frames@) =~= rest.push(fr2v));
                            assert(stepped == Ok::<StateV, ErrorV>(
                                StateV { stack: svv(self.stack@), frames: fvv(frames@) },
                            ));
                        }
                    },
                    Instruction::InlineConstant(ic) => {
                        let v = match ic {
                            InlineConstant::Unit => Value::Unit,
                            InlineConstant::Bool(b) => Value::Bool(b),
                        };
                        proof {
                            assert(stack_ok(self.stack@.push(v)));
                            lemma_svv_push(self.stack@, v);
                        }
                        match self.stack.push(v) {
                            Ok(()) => (),
                            Err(e) => {
                                return Err(e);
                            },
                        }
                        frames.push(fr);
                        proof {
                            lemma_fvv_push(rest_frames(frames@), fr);
                            assert(fvv(frames@) =~= rest.push(fr2v));
                            assert(stepped == Ok::<StateV, ErrorV>(
                                StateV { stack: svv(self.stack@), frames: fvv(frames@) },
                            ));
                        }
                    },
                    Instruction::Unary(op) => {
                        let ghost s_top = self.stack@;
                        let v = match self.stack.pop() {
                            Ok(v) => v,
                            Err(e) => {
                                proof {
                                    assert(stepped == Err::<StateV, ErrorV>(everr(e)));
                                }
                                return Err(e);
                            },
                        };
                        proof {
                            assert(value_ok(v));
                            assert(vview(v) == cur.stack.last());
                            lemma_svv_drop_last(s_top);
                        }
                        let out = match eval_unary(op, &v) {
                            Ok(out) => out,
                            Err(e) => {
                                proof {
                                    assert(stepped == Err::<StateV, ErrorV>(everr(e)));
                                }
                                return Err(e);
                            },
                        };
                        proof {
                            assert(stack_ok(self.stack@.push(out)));
                            lemma_svv_push(self.stack@, out);
                        }
                        match self.stack.push(out) {
                            Ok(()) => (),
                            Err(e) => {
                                return Err(e);
                            },
                        }
                        frames.push(fr);
                        proof {
                            lemma_fvv_push(rest_frames(frames@), fr);
                            assert(fvv(frames@) =~= rest.push(fr2v));
                            assert(stepped == Ok::<StateV, ErrorV>(
                                StateV { stack: svv(self.stack@), frames: fvv(frames@) },
                            ));
                        }
                    },
                    Instruction::Binary(op) => {
                        let ghost s_top = self.stack@;
                        let ops = match self.stack.pop_multiple(2) {
                            Ok(v) => v,
                            Err(e) => {
                                proof {
                                    assert(stepped == Err::<StateV, ErrorV>(everr(e)));
                                }
                                return Err(e);
                            },
                        };
                        proof {
                            assert(value_ok(ops@[0]));
                            assert(value_ok(ops@[1]));
                            assert(vview(ops@[0]) == cur.stack[cur.stack.len() - 2]);
                            assert(vview(ops@[1]) == cur.stack.last());
                            lemma_svv_subrange(s_top, 0, s_top.len() - 2);
                        }
                        let out = match eval_binary(op, &ops[0], &ops[1]) {
                            Ok(out) => out,
                            Err(e) => {
                                proof {
                                    assert(stepped == Err::<StateV, ErrorV>(everr(e)));
                                }
                                return Err(e);
                            },
                        };
                        proof {
                            assert(stack_ok(self.stack@.push(out)));
                            lemma_svv_push(self.stack@, out);
                        }
                        match self.stack.push(out) {
                            Ok(()) => (),
                            Err(e) => {
                                return Err(e);
                            },
                        }
                        frames.push(fr);
                        proof {
                            lemma_fvv_push(rest_frames(frames@), fr);
                            assert(fvv(frames@) =~= rest.push(fr2v));
                            assert(stepped == Ok::<StateV, ErrorV>(
                                StateV { stack: svv(self.stack@), frames: fvv(frames@) },
                            ));
                        }
                    },
                    Instruction::LoadLocal(i) => {
                        let sl = self.stack.len();
                        if fr.offset >= sl || i >= sl - fr.offset {
                            proof {
                                assert(stepped == Err::<StateV, ErrorV>(
                                    ErrorV::Internal(InternalError::InvalidLocal(i)),
                                ));
                            }
                            return Err(Error::Internal(InternalError::InvalidLocal(i)));
                        }
                        let v = match self.stack.get(fr.offset + i) {
                            Some(v) => v.duplicate(),
                            None => {
                                return Err(Error::Internal(InternalError::InvalidLocal(i)));
                            },
                        };
                        proof {
                            assert(value_ok(self.stack@[fr.offset + i]));
                            assert(value_ok(v));
                            assert(vview(v) == cur.stack[fr.offset + i]);
                            assert(stack_ok(self.stack@.push(v)));
                            lemma_svv_push(self.stack@, v);
                        }
                        match self.stack.push(v) {
                            Ok(()) => (),
                            Err(e) => {
                                return Err(e);
                            },
                        }
                        frames.push(fr);
                        proof {
                            lemma_fvv_push(rest_frames(frames@), fr);
                            assert(fvv(frames@) =~= rest.push(fr2v));
                            assert(svv(self.stack@) =~= cur.stack.push(
                                cur.stack[fr2v.offset + i],
                            ));
                            assert(stepped == Ok::<StateV, ErrorV>(
                                StateV { stack: svv(self.stack@), frames: fvv(frames@) },
                            ));
                        }
                    },
                    Instruction::StoreLocal(i) => {
                        let ghost s_top = self.stack@;
                        let v = match self.stack.pop() {
                            Ok(v) => v,
                            Err(e) => {
                                proof {
                                    assert(stepped == Err::<StateV, ErrorV>(everr(e)));
                                }
                                return Err(e);
                            },
                        };
                        proof {
                            lemma_svv_drop_last(s_top);
                        }
                        let sl = self.stack.len();
                        if fr.offset >= sl || i >= sl - fr.offset {
                            proof {
                                assert(stepped == Err::<StateV, ErrorV>(
                                    ErrorV::Internal(InternalError::InvalidLocal(i)),
                                ));
                            }
                            return Err(Error::Internal(InternalError::InvalidLocal(i)));
                        }
                        let ghost before = self.stack@;
                        match self.stack.set(fr.offset + i, v) {
                            Ok(()) => (),
                            Err(_) => {
                                return Err(Error::Internal(InternalError::InvalidLocal(i)));
                            },
                        }
                        proof {
                            lemma_svv_update(before, fr.offset + i, v);
                            assert(vview(v) == cur.stack.last());
                            assert forall|j: int| 0 <= j < self.stack@.len() implies value_ok(
                                #[trigger] self.stack@[j],
                            ) by {
                                if j != fr.offset + i {
                                    assert(self.stack@[j] == before[j]);
                                }
                            }
                        }
                        frames.push(fr);
                        proof {
                            lemma_fvv_push(rest_frames(frames@), fr);
                            assert(fvv(frames@) =~= rest.push(fr2v));
                            assert(stepped == Ok::<StateV, ErrorV>(
                                StateV { stack: svv(self.stack@), frames: fvv(frames@) },
                            ));
                        }
                    },
                    Instruction::LoadNamed(k) => {
                        let n = self.module.constants().len();
                        if k >= n {
                            proof {
                                assert(stepped == Err::<StateV, ErrorV>(
                                    ErrorV::Internal(InternalError::InvalidConstant(k, n)),
                                ));
                            }
                            return Err(Error::Internal(InternalError::InvalidConstant(k, n)));
                        }
                        let name = match &self.module.constants()[k] {
                            Constant::String(b) => copy_bytes(b),
                            _ => {
                                proof {
                                    assert(stepped == Err::<StateV, ErrorV>(
                                        ErrorV::Internal(InternalError::InvalidConstantType(k)),
                                    ));
                                }
                                return Err(
                                    Error::Internal(InternalError::InvalidConstantType(k)),
                                );
                            },
                        };
                        let vi = match self.module.global_index(&name) {
                            Some(vi) => vi,
                            None => {
                                proof {
                                    assert(stepped == Err::<StateV, ErrorV>(
                                        ErrorV::NameError(name@),
                                    ));
                                }
                                return Err(Error::NameError(name));
                            },
                        };
                        let v = match self.value_at(vi as usize) {
                            Ok(v) => v,
                            Err(e) => {
                                proof {
                                    assert(stepped == Err::<StateV, ErrorV>(everr(e)));
                                }
                                return Err(e);
                            },
                        };
                        proof {
                            assert(stack_ok(self.stack@.push(v)));
                            lemma_svv_push(self.stack@, v);
                        }
                        match self.stack.push(v) {
                            Ok(()) => (),
                            Err(e) => {
                                return Err(e);
                            },
                        }
                        frames.push(fr);
                        proof {
                            lemma_fvv_push(rest_frames(frames@), fr);
                            assert(fvv(frames@) =~= rest.push(fr2v));
                            assert(stepped == Ok::<StateV, ErrorV>(
                                StateV { stack: svv(self.stack@), frames: fvv(frames@) },
                            ));
                        }
                    },
                    Instruction::StoreNamed(_) => {
                        proof {
                            assert(stepped == Err::<StateV, ErrorV>(
                                ErrorV::Unsupported(RuntimeUnsupported::GlobalMutation),
                            ));
                        }
                        return Err(Error::Unsupported(RuntimeUnsupported::GlobalMutation));
                    },
                    Instruction::LoadPositionalField(_) | Instruction::StorePositionalField(_)
                        | Instruction::LoadNamedField(_) | Instruction::StoreNamedField(_) => {
                        proof {
                            assert(stepped == Err::<StateV, ErrorV>(
                                ErrorV::Unsupported(RuntimeUnsupported::FieldAccess),
                            ));
                        }
                        return Err(Error::Unsupported(RuntimeUnsupported::FieldAccess));
                    },
                    Instruction::Pop => {
                        let ghost s_top = self.stack@;
                        match self.stack.pop() {
                            Ok(_) => (),
                            Err(e) => {
                                proof {
                                    assert(stepped == Err::<StateV, ErrorV>(everr(e)));
                                }
                                return Err(e);
                            },
                        }
                        proof {
                            lemma_svv_drop_last(s_top);
                        }
                        frames.push(fr);
                        proof {
                            lemma_fvv_push(rest_frames(frames@), fr);
                            assert(fvv(frames@) =~= rest.push(fr2v));
                            assert(stepped == Ok::<StateV, ErrorV>(
                                StateV { stack: svv(self.stack@), frames: fvv(frames@) },
                            ));
                        }
                    },
                    Instruction::PopScope(d) => {
                        let sl = self.stack.len();
                        if fr.offset >= sl || d >= sl - fr.offset {
                            proof {
                                assert(stepped == Err::<StateV, ErrorV>(
                                    ErrorV::Internal(InternalError::EmptyStack),
                                ));
                            }
                            return Err(Error::Internal(InternalError::EmptyStack));
                        }
                        let ghost before = self.stack@;
                        match self.stack.pop_all_under(fr.offset + d) {
                            Ok(_) => (),
                            Err(e) => {
                                proof {
                                    assert(stepped == Err::<StateV, ErrorV>(everr(e)));
                                }
                                return Err(e);
                            },
                        }
                        proof {
                            lemma_svv_subrange(before, 0, fr.offset + d);
                            lemma_svv_push(
                                before.subrange(0, fr.offset + d),
                                before.last(),
                            );
                            assert(vview(before.last()) == cur.stack.last());
                            assert forall|j: int| 0 <= j < self.stack@.len() implies value_ok(
                                #[trigger] self.stack@[j],
                            ) by {
                                if j < fr.offset + d {
                                    assert(self.stack@[j] == before[j]);
                                } else {
                                    assert(self.stack@[j] == before.last());
                                }
                            }
                        }
                        frames.push(fr);
                        proof {
                            lemma_fvv_push(rest_frames(frames@), fr);
                            assert(fvv(frames@) =~= rest.push(fr2v));
                            assert(stepped == Ok::<StateV, ErrorV>(
                                StateV { stack: svv(self.stack@), frames: fvv(frames@) },
                            ));
                        }
                    },
                    Instruction::Call(n) => {
                        frames.push(fr);
                        proof {
                            lemma_fvv_push(rest_frames(frames@), fr);
                            assert(fvv(frames@) =~= rest.push(fr2v));
                        }
                        match self.begin_call(&mut frames, n) {
                            Ok(()) => (),
                            Err(e) => {
                                proof {
                                    assert(stepped == Err::<StateV, ErrorV>(everr(e)));
                                }
                                return Err(e);
                            },
                        }
                        proof {
                            assert(stepped == Ok::<StateV, ErrorV>(
                                StateV { stack: svv(self.stack@), frames: fvv(frames@) },
                            ));
                        }
                    },
                    Instruction::Return => {
                        let sl = self.stack.len();
                        if fr.offset >= sl || fr.arity >= sl - fr.offset {
                            proof {
                                assert(stepped == Err::<StateV, ErrorV>(
                                    ErrorV::Internal(InternalError::EmptyStack),
                                ));
                            }
                            return Err(Error::Internal(InternalError::EmptyStack));
                        }
                        let ghost before = self.stack@;
                        match self.stack.pop_all_under(fr.offset + fr.arity) {
                            Ok(_) => (),
                            Err(e) => {
                                proof {
                                    assert(stepped == Err::<StateV, ErrorV>(everr(e)));
                                }
                                return Err(e);
                            },
                        }
                        proof {
                            lemma_svv_subrange(before, 0, fr.offset + fr.arity);
                            lemma_svv_push(
                                before.subrange(0, fr.offset + fr.arity),
                                before.last(),
                            );
                            assert(vview(before.last()) == cur.stack.last());
                            assert forall|j: int| 0 <= j < self.stack@.len() implies value_ok(
                                #[trigger] self.stack@[j],
                            ) by {
                                if j < fr.offset + fr.arity {
                                    assert(self.stack@[j] == before[j]);
                                } else {
                                    assert(self.stack@[j] == before.last());
                                }
                            }
                        }
                        match self.finish_frame(fr.offset, fr.arity) {
                            Ok(()) => (),
                            Err(e) => {
                                proof {
                                    assert(stepped == Err::<StateV, ErrorV>(everr(e)));
                                }
                                return Err(e);
                            },
                        }
                        proof {
                            assert(stepped == Ok::<StateV, ErrorV>(
                                StateV { stack: svv(self.stack@), frames: fvv(frames@) },
                            ));
                        }
                    },
                    Instruction::Jump(off) => {
                        fr.pc = match apply_jump(fr.pc, off, fr.body.len()) {
                            Ok(p) => p,
                            Err(e) => {
                                proof {
                                    assert(stepped == Err::<StateV, ErrorV>(everr(e)));
                                }
                                return Err(e);
                            },
                        };
                        frames.push(fr);
                        proof {
                            lemma_fvv_push(rest_frames(frames@), fr);
                            assert(fvv(frames@) =~= rest.push(fview(fr)));
                            assert(stepped == Ok::<StateV, ErrorV>(
                                StateV { stack: svv(self.stack@), frames: fvv(frames@) },
                            ));
                        }
                    },
                    Instruction::JumpIf(off) => {
                        let ghost s_top = self.stack@;
                        let v = match self.stack.pop() {
                            Ok(v) => v,
                            Err(e) => {
                                proof {
                                    assert(stepped == Err::<StateV, ErrorV>(everr(e)));
                                }
                                return Err(e);
                            },
                        };
                        proof {
                            lemma_svv_drop_last(s_top);
                            assert(vview(v) == cur.stack.last());
                        }
                        let cond = match v.as_bool() {
                            Ok(cond) => cond,
                            Err(e) => {
                                proof {
                                    assert(stepped == Err::<StateV, ErrorV>(everr(e)));
                                }
                                return Err(e);
                            },
                        };
                        if cond {
                            fr.pc = match apply_jump(fr.pc, off, fr.body.len()) {
                                Ok(p) => p,
                                Err(e) => {
                                    proof {
                                        assert(stepped == Err::<StateV, ErrorV>(everr(e)));
                                    }
                                    return Err(e);
                                },
                            };
                        }
                        frames.push(fr);
                        proof {
                            lemma_fvv_push(rest_frames(frames@), fr);
                            assert(fvv(frames@) =~= rest.push(fview(fr)));
                            assert(stepped == Ok::<StateV, ErrorV>(
                                StateV { stack: svv(self.stack@), frames: fvv(frames@) },
                            ));
                        }
                    },
                }
            }
            proof {
                assert(spec_run_loop(m0, cur, left as nat) == spec_run_loop(
                    m0,
                    StateV { stack: svv(self.stack@), frames: fvv(frames@) },
                    (left - 1) as nat,
                ));
            }
            left = left - 1;
        }
        let ghost s_end = self.stack@;
        match self.stack.pop() {
            Ok(v) => {
                proof {
                    assert(vview(v) == svv(s_end).last());
                }
                Ok(v)
            },
            Err(e) => {
                proof {
                    assert(svv(s_end).len() == 0);
                }
                Err(e)
            },
        }
    }

    /// Execute the module with the largest step budget.
    pub fn run(self) -> (r: Result<Value>)
        requires
            self.module.wf(),
            stack_ok(self.stack@),
        ensures
            match r {
                Ok(v) => spec_run(self.module, svv(self.stack@), u64::MAX as nat) == Ok::<
                    ValueV,
                    ErrorV,
                >(vview(v)) && value_ok(v),
                Err(e) => spec_run(self.module, svv(self.stack@), u64::MAX as nat) == Err::<
                    ValueV,
                    ErrorV,
                >(everr(e)),
            },
    {
        let mut vm = self;
        vm.run_with_fuel(u64::MAX)
    }
}

/// The byte offset a jump moves the cursor to, from the position just
/// after the jump instruction; outside the body it is a runtime error.
fn apply_jump(next: usize, off: Offset, len: usize) -> (r: Result<usize>)
    requires
        next <= len,
    ensures
        match r {
            Ok(p) => p <= len && p == crate::checker::jump_target(next as int, off),
            Err(e) => e == Error::Internal(InternalError::InvalidJump) && !(0
                <= crate::checker::jump_target(next as int, off) <= len),
        },
{
    match off {
        Offset::Forward(n) => {
            if n <= len - next {
                Ok(next + n)
            } else {
                Err(Error::Internal(InternalError::InvalidJump))
            }
        },
        Offset::Backward(n) => {
            if n <= next {
                Ok(next - n)
            } else {
                Err(Error::Internal(InternalError::InvalidJump))
            }
        },
    }
}

/// Whether the bytes parse to the view of module `m` and a run of `m`
/// from an empty stack with the given budget yields `out`.
pub open spec fn spec_parses_and_runs(
    bytes: Seq<u8>,
    m: Module,
    fuel: nat,
    out: core::result::Result<ValueV, ErrorV>,
) -> bool {
    &&& crate::codec::spec_parse_module(bytes) == Ok::<crate::module::ModuleV,
        crate::instruction::Error,
    >(crate::module::mview(m))
    &&& spec_run(m, Seq::empty(), fuel) == out
}

/// Parse a module from its byte form and execute it with the given step
/// budget. The outcome is exactly a parse failure wrapped as malformed
/// bytecode, or the spec-level run of the parsed module.
pub fn run_bytecode_with_fuel(bytes: &Vec<u8>, fuel: u64) -> (r: Result<Value>)
    ensures
        match r {
            Ok(v) => value_ok(v) && exists|m: Module|
                #[trigger] spec_parses_and_runs(
                    bytes@,
                    m,
                    fuel as nat,
                    Ok::<ValueV, ErrorV>(vview(v)),
                ),
            Err(e) => match crate::codec::spec_parse_module(bytes@) {
                Err(pe) => e == Error::Internal(InternalError::InvalidBytecode(pe)),
                Ok(_) => exists|m: Module|
                    #[trigger] spec_parses_and_runs(
                        bytes@,
                        m,
                        fuel as nat,
                        Err::<ValueV, ErrorV>(everr(e)),
                    ),
            },
        },
{
    let module = match crate::codec::parse_bytecode(bytes) {
        Ok(m) => m,
        Err(e) => {
            return Err(Error::Internal(InternalError::InvalidBytecode(e)));
        },
    };
    let ghost m0 = module;
    let mut vm = Vm::new(module);
    proof {
        assert(stack_ok(vm.stack@));
        assert(svv(vm.stack@) =~= Seq::<ValueV>::empty());
    }
    let r = vm.run_with_fuel(fuel);
    proof {
        match &r {
            Ok(v) => {
                assert(spec_parses_and_runs(
                    bytes@,
                    m0,
                    fuel as nat,
                    Ok::<ValueV, ErrorV>(vview(*v)),
                ));
            },
            Err(e) => {
                assert(spec_parses_and_runs(
                    bytes@,
                    m0,
                    fuel as nat,
                    Err::<ValueV, ErrorV>(everr(*e)),
                ));
            },
        }
    }
    r
}

/// Parse a module from its byte form and execute it with the largest step
/// budget.
pub fn run_bytecode(bytes: &Vec<u8>) -> (r: Result<Value>)
    ensures
        match r {
            Ok(v) => value_ok(v) && exists|m: Module|
                #[trigger] spec_parses_and_runs(
                    bytes@,
                    m,
                    u64::MAX as nat,
                    Ok::<ValueV, ErrorV>(vview(v)),
                ),
            Err(e) => match crate::codec::spec_parse_module(bytes@) {
                Err(pe) => e == Error::Internal(InternalError::InvalidBytecode(pe)),
                Ok(_) => exists|m: Module|
                    #[trigger] spec_parses_and_runs(
                        bytes@,
                        m,
                        u64::MAX as nat,
                        Err::<ValueV, ErrorV>(everr(e)),
                    ),
            },
        },
{
    run_bytecode_with_fuel(bytes, u64::MAX)
}

} // verus!
