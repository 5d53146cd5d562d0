//! The instruction model: decoded instructions, their fixed one- or two-byte
//! encoding, and their static stack effect.
//!
//! Opcode byte 0 is reserved as permanently invalid: no instruction encodes
//! to it, and decoding rejects it.

use vstd::prelude::*;

use crate::ast::{BinaryOperator, UnaryOperator};

verus! {

/// The opcodes of the bytecode format, each standing for one encoded
/// instruction shape.
#[derive(Clone, Copy, Debug, PartialEq, Eq, Structural)]
pub enum Opcode {
    Constant,
    Unit,
    True,
    False,
    Unary,
    Binary,
    LoadLocal,
    StoreLocal,
    LoadNamed,
    StoreNamed,
    LoadPositionalField,
    StorePositionalField,
    LoadNamedField,
    StoreNamedField,
    Pop,
    PopScope,
    Call,
    Return,
    JumpForward,
    JumpBackward,
    JumpForwardIf,
    JumpBackwardIf,
}

/// A decoded instruction, with its parameter (if any) widened to `usize`.
#[derive(Clone, Copy, Debug, PartialEq, Eq, Structural)]
pub enum Instruction {
    Constant(usize),
    InlineConstant(InlineConstant),
    Unary(UnaryOperator),
    Binary(BinaryOperator),
    LoadLocal(usize),
    StoreLocal(usize),
    LoadNamed(usize),
    StoreNamed(usize),
    LoadPositionalField(usize),
    StorePositionalField(usize),
    LoadNamedField(usize),
    StoreNamedField(usize),
    Pop,
    PopScope(usize),
    Call(usize),
    Return,
    Jump(Offset),
    JumpIf(Offset),
}

/// A constant small enough to live in the opcode itself.
#[derive(Clone, Copy, Debug, PartialEq, Eq, Structural)]
pub enum InlineConstant {
    Unit,
    Bool(bool),
}

/// A relative jump distance in bytes, measured from the byte after the jump
/// instruction.
#[derive(Clone, Copy, Debug, PartialEq, Eq, Structural)]
pub enum Offset {
    Forward(usize),
    Backward(usize),
}

/// Errors raised while reading a bytecode module or an instruction stream.
#[derive(Clone, Copy, Debug, PartialEq, Eq, Structural)]
pub enum Error {
    /// The input ended before the current item was complete.
    UnexpectedEnd,
    /// The file does not begin with the required magic bytes.
    InvalidMagic,
    /// A constant pool entry carries an unknown kind tag.
    InvalidConstantKind,
    /// A string constant is not valid UTF-8.
    InvalidStringConstant,
    /// A number constant is not a valid decimal literal.
    InvalidNumberConstant,
    /// An opcode byte does not denote any opcode.
    InvalidOpcode(u8),
    /// An instruction's parameter byte is missing.
    IncompleteInstruction(Opcode),
    /// An instruction's sub-operator byte is not a known operator.
    InvalidInstruction(Opcode),
    /// A constant index points outside the pool; carries the index and the
    /// pool's length.
    InvalidConstantRef(usize, usize),
    /// A constant index resolves to a constant of the wrong kind.
    InvalidConstantRefType(usize),
    /// A struct descriptor carries an unknown kind tag.
    InvalidStructTypeKind,
}

pub type Result<T> = core::result::Result<T, Error>;

// ---------------------------------------------------------------------------
// Byte values of opcodes and operators
// ---------------------------------------------------------------------------

/// The byte that encodes an opcode. Every value is nonzero: byte 0 is
/// reserved as invalid.
pub open spec fn spec_opcode_byte(op: Opcode) -> u8 {
    match op {
        Opcode::Constant => 1,
        Opcode::Unit => 2,
        Opcode::True => 3,
        Opcode::False => 4,
        Opcode::Unary => 5,
        Opcode::Binary => 6,
        Opcode::LoadLocal => 7,
        Opcode::StoreLocal => 8,
        Opcode::LoadNamed => 9,
        Opcode::StoreNamed => 10,
        Opcode::LoadPositionalField => 11,
        Opcode::StorePositionalField => 12,
        Opcode::LoadNamedField => 13,
        Opcode::StoreNamedField => 14,
        Opcode::Pop => 15,
        Opcode::PopScope => 16,
        Opcode::Call => 17,
        Opcode::Return => 18,
        Opcode::JumpForward => 19,
        Opcode::JumpBackward => 20,
        Opcode::JumpForwardIf => 21,
        Opcode::JumpBackwardIf => 22,
    }
}

/// The opcode denoted by a byte, if any.
pub open spec fn spec_opcode_of_byte(b: u8) -> Option<Opcode> {
    if b == 1 {
        Some(Opcode::Constant)
    } else if b == 2 {
        Some(Opcode::Unit)
    } else if b == 3 {
        Some(Opcode::True)
    } else if b == 4 {
        Some(Opcode::False)
    } else if b == 5 {
        Some(Opcode::Unary)
    } else if b == 6 {
        Some(Opcode::Binary)
    } else if b == 7 {
        Some(Opcode::LoadLocal)
    } else if b == 8 {
        Some(Opcode::StoreLocal)
    } else if b == 9 {
        Some(Opcode::LoadNamed)
    } else if b == 10 {
        Some(Opcode::StoreNamed)
    } else if b == 11 {
        Some(Opcode::LoadPositionalField)
    } else if b == 12 {
        Some(Opcode::StorePositionalField)
    } else if b == 13 {
        Some(Opcode::LoadNamedField)
    } else if b == 14 {
        Some(Opcode::StoreNamedField)
    } else if b == 15 {
        Some(Opcode::Pop)
    } else if b == 16 {
        Some(Opcode::PopScope)
    } else if b == 17 {
        Some(Opcode::Call)
    } else if b == 18 {
        Some(Opcode::Return)
    } else if b == 19 {
        Some(Opcode::JumpForward)
    } else if b == 20 {
        Some(Opcode::JumpBackward)
    } else if b == 21 {
        Some(Opcode::JumpForwardIf)
    } else if b == 22 {
        Some(Opcode::JumpBackwardIf)
    } else {
        None
    }
}

/// The two byte mappings invert each other, and no opcode encodes to 0.
pub proof fn lemma_opcode_byte_roundtrip(op: Opcode)
    ensures
        spec_opcode_byte(op) != 0,
        spec_opcode_of_byte(spec_opcode_byte(op)) == Some(op),
{
}

impl Opcode {
    /// The encoded byte of this opcode; never 0.
    pub fn byte(self) -> (r: u8)
        ensures
            r == spec_opcode_byte(self),
            r != 0,
    {
        match self {
            Opcode::Constant => 1,
            Opcode::Unit => 2,
            Opcode::True => 3,
            Opcode::False => 4,
            Opcode::Unary => 5,
            Opcode::Binary => 6,
            Opcode::LoadLocal => 7,
            Opcode::StoreLocal => 8,
            Opcode::LoadNamed => 9,
            Opcode::StoreNamed => 10,
            Opcode::LoadPositionalField => 11,
            Opcode::StorePositionalField => 12,
            Opcode::LoadNamedField => 13,
            Opcode::StoreNamedField => 14,
            Opcode::Pop => 15,
            Opcode::PopScope => 16,
            Opcode::Call => 17,
            Opcode::Return => 18,
            Opcode::JumpForward => 19,
            Opcode::JumpBackward => 20,
            Opcode::JumpForwardIf => 21,
            Opcode::JumpBackwardIf => 22,
        }
    }

    /// The opcode denoted by a byte, if any; byte 0 never decodes.
    pub fn from_byte(b: u8) -> (r: Option<Opcode>)
        ensures
            r == spec_opcode_of_byte(b),
    {
        match b {
            1u8 => Some(Opcode::Constant),
            2u8 => Some(Opcode::Unit),
            3u8 => Some(Opcode::True),
            4u8 => Some(Opcode::False),
            5u8 => Some(Opcode::Unary),
            6u8 => Some(Opcode::Binary),
            7u8 => Some(Opcode::LoadLocal),
            8u8 => Some(Opcode::StoreLocal),
            9u8 => Some(Opcode::LoadNamed),
            10u8 => Some(Opcode::StoreNamed),
            11u8 => Some(Opcode::LoadPositionalField),
            12u8 => Some(Opcode::StorePositionalField),
            13u8 => Some(Opcode::LoadNamedField),
            14u8 => Some(Opcode::StoreNamedField),
            15u8 => Some(Opcode::Pop),
            16u8 => Some(Opcode::PopScope),
            17u8 => Some(Opcode::Call),
            18u8 => Some(Opcode::Return),
            19u8 => Some(Opcode::JumpForward),
            20u8 => Some(Opcode::JumpBackward),
            21u8 => Some(Opcode::JumpForwardIf),
            22u8 => Some(Opcode::JumpBackwardIf),
            _ => None,
        }
    }
}

/// The sub-operator byte of a binary operator.
pub open spec fn spec_binary_byte(op: BinaryOperator) -> u8 {
    match op {
        BinaryOperator::Multiply => 0,
        BinaryOperator::Divide => 1,
        BinaryOperator::Modulo => 2,
        BinaryOperator::Add => 3,
        BinaryOperator::Subtract => 4,
        BinaryOperator::RightShift => 5,
        BinaryOperator::LeftShift => 6,
        BinaryOperator::BitAnd => 7,
        BinaryOperator::BitXor => 8,
        BinaryOperator::BitOr => 9,
        BinaryOperator::Equals => 10,
        BinaryOperator::NotEquals => 11,
        BinaryOperator::Greater => 12,
        BinaryOperator::GreaterEquals => 13,
        BinaryOperator::Less => 14,
        BinaryOperator::LessEquals => 15,
    }
}

/// The binary operator denoted by a sub-operator byte, if any.
pub open spec fn spec_binary_of_byte(b: u8) -> Option<BinaryOperator> {
    if b == 0 {
        Some(BinaryOperator::Multiply)
    } else if b == 1 {
        Some(BinaryOperator::Divide)
    } else if b == 2 {
        Some(BinaryOperator::Modulo)
    } else if b == 3 {
        Some(BinaryOperator::Add)
    } else if b == 4 {
        Some(BinaryOperator::Subtract)
    } else if b == 5 {
        Some(BinaryOperator::RightShift)
    } else if b == 6 {
        Some(BinaryOperator::LeftShift)
    } else if b == 7 {
        Some(BinaryOperator::BitAnd)
    } else if b == 8 {
        Some(BinaryOperator::BitXor)
    } else if b == 9 {
        Some(BinaryOperator::BitOr)
    } else if b == 10 {
        Some(BinaryOperator::Equals)
    } else if b == 11 {
        Some(BinaryOperator::NotEquals)
    } else if b == 12 {
        Some(BinaryOperator::Greater)
    } else if b == 13 {
        Some(BinaryOperator::GreaterEquals)
    } else if b == 14 {
        Some(BinaryOperator::Less)
    } else if b == 15 {
        Some(BinaryOperator::LessEquals)
    } else {
        None
    }
}

impl BinaryOperator {
    pub fn byte(self) -> (r: u8)
        ensures
            r == spec_binary_byte(self),
    {
        match self {
            BinaryOperator::Multiply => 0,
            BinaryOperator::Divide => 1,
            BinaryOperator::Modulo => 2,
            BinaryOperator::Add => 3,
            BinaryOperator::Subtract => 4,
            BinaryOperator::RightShift => 5,
            BinaryOperator::LeftShift => 6,
            BinaryOperator::BitAnd => 7,
            BinaryOperator::BitXor => 8,
            BinaryOperator::BitOr => 9,
            BinaryOperator::Equals => 10,
            BinaryOperator::NotEquals => 11,
            BinaryOperator::Greater => 12,
            BinaryOperator::GreaterEquals => 13,
            BinaryOperator::Less => 14,
            BinaryOperator::LessEquals => 15,
        }
    }

    pub fn from_byte(b: u8) -> (r: Option<BinaryOperator>)
        ensures
            r == spec_binary_of_byte(b),
    {
        match b {
            0u8 => Some(BinaryOperator::Multiply),
            1u8 => Some(BinaryOperator::Divide),
            2u8 => Some(BinaryOperator::Modulo),
            3u8 => Some(BinaryOperator::Add),
            4u8 => Some(BinaryOperator::Subtract),
            5u8 => Some(BinaryOperator::RightShift),
            6u8 => Some(BinaryOperator::LeftShift),
            7u8 => Some(BinaryOperator::BitAnd),
            8u8 => Some(BinaryOperator::BitXor),
            9u8 => Some(BinaryOperator::BitOr),
            10u8 => Some(BinaryOperator::Equals),
            11u8 => Some(BinaryOperator::NotEquals),
            12u8 => Some(BinaryOperator::Greater),
            13u8 => Some(BinaryOperator::GreaterEquals),
            14u8 => Some(BinaryOperator::Less),
            15u8 => Some(BinaryOperator::LessEquals),
            _ => None,
        }
    }
}

/// The sub-operator byte of a unary operator.
pub open spec fn spec_unary_byte(op: UnaryOperator) -> u8 {
    match op {
        UnaryOperator::Negate => 0,
        UnaryOperator::Not => 1,
    }
}

/// The unary operator denoted by a sub-operator byte, if any.
pub open spec fn spec_unary_of_byte(b: u8) -> Option<UnaryOperator> {
    if b == 0 {
        Some(UnaryOperator::Negate)
    } else if b == 1 {
        Some(UnaryOperator::Not)
    } else {
        None
    }
}

impl UnaryOperator {
    pub fn byte(self) -> (r: u8)
        ensures
            r == spec_unary_byte(self),
    {
        match self {
            UnaryOperator::Negate => 0,
            UnaryOperator::Not => 1,
        }
    }

    pub fn from_byte(b: u8) -> (r: Option<UnaryOperator>)
        ensures
            r == spec_unary_of_byte(b),
    {
        match b {
            0u8 => Some(UnaryOperator::Negate),
            1u8 => Some(UnaryOperator::Not),
            _ => None,
        }
    }
}

// ---------------------------------------------------------------------------
// Stack effect and encoded length
// ---------------------------------------------------------------------------

/// The static stack effect of an instruction: how many values it nets onto
/// the operand stack. `PopScope` has no static effect (its effect depends on
/// the stack depth), so it yields `None`.
pub open spec fn spec_stack_effect(i: Instruction) -> Option<int> {
    match i {
        Instruction::Constant(_) => Some(1),
        Instruction::InlineConstant(_) => Some(1),
        Instruction::Unary(_) => Some(0),
        Instruction::Binary(_) => Some(-1),
        Instruction::LoadLocal(_) => Some(1),
        Instruction::StoreLocal(_) => Some(-1),
        Instruction::LoadNamed(_) => Some(1),
        Instruction::StoreNamed(_) => Some(-1),
        Instruction::LoadPositionalField(_) => Some(1),
        Instruction::StorePositionalField(_) => Some(-1),
        Instruction::LoadNamedField(_) => Some(1),
        Instruction::StoreNamedField(_) => Some(-1),
        Instruction::Pop => Some(-1),
        Instruction::PopScope(_) => None,
        Instruction::Call(arity) => Some(-(arity as int)),
        Instruction::Return => Some(-1),
        Instruction::Jump(_) => Some(0),
        Instruction::JumpIf(_) => Some(-1),
    }
}

/// The length in bytes of an instruction's encoded form: 1 for parameterless
/// opcodes, 2 for opcodes with a one-byte parameter.
pub open spec fn spec_encoded_len(i: Instruction) -> int {
    match i {
        Instruction::InlineConstant(_) => 1,
        Instruction::Pop => 1,
        Instruction::Return => 1,
        _ => 2,
    }
}

/// Whether every parameter of the instruction fits its one-byte encoding.
pub open spec fn spec_param_ok(i: Instruction) -> bool {
    match i {
        Instruction::Constant(k) => k <= 255,
        Instruction::InlineConstant(_) => true,
        Instruction::Unary(_) => true,
        Instruction::Binary(_) => true,
        Instruction::LoadLocal(k) => k <= 255,
        Instruction::StoreLocal(k) => k <= 255,
        Instruction::LoadNamed(k) => k <= 255,
        Instruction::StoreNamed(k) => k <= 255,
        Instruction::LoadPositionalField(k) => k <= 255,
        Instruction::StorePositionalField(k) => k <= 255,
        Instruction::LoadNamedField(k) => k <= 255,
        Instruction::StoreNamedField(k) => k <= 255,
        Instruction::Pop => true,
        Instruction::PopScope(k) => k <= 255,
        Instruction::Call(k) => k <= 255,
        Instruction::Return => true,
        Instruction::Jump(off) => spec_offset_ok(off),
        Instruction::JumpIf(off) => spec_offset_ok(off),
    }
}

pub open spec fn spec_offset_ok(off: Offset) -> bool {
    match off {
        Offset::Forward(n) => n <= 255,
        Offset::Backward(n) => n <= 255,
    }
}

/// The encoded bytes of one instruction: the opcode byte, then the parameter
/// byte for two-byte instructions.
pub open spec fn spec_encode(i: Instruction) -> Seq<u8>
    recommends
        spec_param_ok(i),
{
    match i {
        Instruction::Constant(k) => seq![spec_opcode_byte(Opcode::Constant), k as u8],
        Instruction::InlineConstant(c) => match c {
            InlineConstant::Unit => seq![spec_opcode_byte(Opcode::Unit)],
            InlineConstant::Bool(b) => if b {
                seq![spec_opcode_byte(Opcode::True)]
            } else {
                seq![spec_opcode_byte(Opcode::False)]
            },
        },
        Instruction::Unary(op) => seq![spec_opcode_byte(Opcode::Unary), spec_unary_byte(op)],
        Instruction::Binary(op) => seq![spec_opcode_byte(Opcode::Binary), spec_binary_byte(op)],
        Instruction::LoadLocal(k) => seq![spec_opcode_byte(Opcode::LoadLocal), k as u8],
        Instruction::StoreLocal(k) => seq![spec_opcode_byte(Opcode::StoreLocal), k as u8],
        Instruction::LoadNamed(k) => seq![spec_opcode_byte(Opcode::LoadNamed), k as u8],
        Instruction::StoreNamed(k) => seq![spec_opcode_byte(Opcode::StoreNamed), k as u8],
        Instruction::LoadPositionalField(k) => seq![
            spec_opcode_byte(Opcode::LoadPositionalField),
            k as u8,
        ],
        Instruction::StorePositionalField(k) => seq![
            spec_opcode_byte(Opcode::StorePositionalField),
            k as u8,
        ],
        Instruction::LoadNamedField(k) => seq![spec_opcode_byte(Opcode::LoadNamedField), k as u8],
        Instruction::StoreNamedField(k) => seq![spec_opcode_byte(Opcode::StoreNamedField), k as u8],
        Instruction::Pop => seq![spec_opcode_byte(Opcode::Pop)],
        Instruction::PopScope(k) => seq![spec_opcode_byte(Opcode::PopScope), k as u8],
        Instruction::Call(k) => seq![spec_opcode_byte(Opcode::Call), k as u8],
        Instruction::Return => seq![spec_opcode_byte(Opcode::Return)],
        Instruction::Jump(off) => match off {
            Offset::Forward(n) => seq![spec_opcode_byte(Opcode::JumpForward), n as u8],
            Offset::Backward(n) => seq![spec_opcode_byte(Opcode::JumpBackward), n as u8],
        },
        Instruction::JumpIf(off) => match off {
            Offset::Forward(n) => seq![spec_opcode_byte(Opcode::JumpForwardIf), n as u8],
            Offset::Backward(n) => seq![spec_opcode_byte(Opcode::JumpBackwardIf), n as u8],
        },
    }
}

/// The encoded bytes of an instruction sequence, concatenated in order.
pub open spec fn spec_encode_list(l: Seq<Instruction>) -> Seq<u8>
    decreases l.len(),
{
    if l.len() == 0 {
        Seq::empty()
    } else {
        spec_encode(l[0]) + spec_encode_list(l.drop_first())
    }
}

/// Whether `b` is the encoding of the instruction sequence `l`, all of
/// whose parameters fit their one-byte form.
pub open spec fn spec_encodes_list(b: Seq<u8>, l: Seq<Instruction>) -> bool {
    &&& b == spec_encode_list(l)
    &&& forall|i: int| 0 <= i < l.len() ==> spec_param_ok(#[trigger] l[i])
}

/// Whether `b` is the encoding of some such instruction sequence.
pub open spec fn spec_well_encoded(b: Seq<u8>) -> bool {
    exists|l: Seq<Instruction>| spec_encodes_list(b, l)
}

/// The byte offset at which the `k`th instruction of a sequence starts.
pub open spec fn spec_list_offset(l: Seq<Instruction>, k: int) -> int
    decreases k,
{
    if k <= 0 {
        0
    } else {
        spec_list_offset(l, k - 1) + spec_encoded_len(l[k - 1])
    }
}

pub proof fn lemma_encode_list_push(l: Seq<Instruction>, x: Instruction)
    ensures
        spec_encode_list(l.push(x)) == spec_encode_list(l) + spec_encode(x),
    decreases l.len(),
{
    if l.len() == 0 {
        assert(l.push(x).drop_first() =~= Seq::<Instruction>::empty());
        assert(l.push(x)[0] == x);
        assert(spec_encode_list(Seq::<Instruction>::empty()) == Seq::<u8>::empty());
        assert(spec_encode_list(l.push(x)) =~= spec_encode(x) + Seq::<u8>::empty());
        assert(spec_encode(x) + Seq::<u8>::empty() =~= spec_encode(x));
        assert(spec_encode_list(l) + spec_encode(x) =~= spec_encode(x));
    } else {
        assert(l.push(x).drop_first() =~= l.drop_first().push(x));
        lemma_encode_list_push(l.drop_first(), x);
        assert(l.push(x)[0] == l[0]);
        assert(spec_encode(l[0]) + (spec_encode_list(l.drop_first()) + spec_encode(x)) =~= (
        spec_encode(l[0]) + spec_encode_list(l.drop_first())) + spec_encode(x));
    }
}

proof fn lemma_list_offset_drop(l: Seq<Instruction>, k: int)
    requires
        1 <= k <= l.len(),
    ensures
        spec_list_offset(l, k) == spec_encoded_len(l[0]) + spec_list_offset(l.drop_first(), k - 1),
    decreases k,
{
    let rest = l.drop_first();
    if k == 1 {
        assert(spec_list_offset(l, 1) == spec_list_offset(l, 0) + spec_encoded_len(l[0]));
        assert(spec_list_offset(rest, 0) == 0);
    } else {
        lemma_list_offset_drop(l, k - 1);
        assert(rest[k - 2] == l[k - 1]);
        assert(spec_list_offset(l, k) == spec_list_offset(l, k - 1) + spec_encoded_len(l[k - 1]));
        assert(spec_list_offset(rest, k - 1) == spec_list_offset(rest, k - 2) + spec_encoded_len(
            rest[k - 2],
        ));
    }
}

/// Opcode 0 is never emitted: in the encoding of an instruction sequence,
/// the byte at every instruction boundary is a nonzero opcode byte.
pub proof fn lemma_encoded_boundaries_nonzero(b: Seq<u8>, l: Seq<Instruction>, k: int)
    requires
        spec_encodes_list(b, l),
        0 <= k < l.len(),
    ensures
        0 <= spec_list_offset(l, k) < b.len(),
        b[spec_list_offset(l, k)] != 0,
    decreases k,
{
    let e0 = spec_encode(l[0]);
    let rest = l.drop_first();
    let brest = spec_encode_list(rest);
    assert(b == e0 + brest);
    lemma_encode_shape(l[0]);
    if k == 0 {
        assert(b[0] == e0[0]);
    } else {
        assert(spec_encodes_list(brest, rest)) by {
            assert forall|i: int| 0 <= i < rest.len() implies spec_param_ok(
                #[trigger] rest[i],
            ) by {
                assert(rest[i] == l[i + 1]);
            }
        }
        lemma_encoded_boundaries_nonzero(brest, rest, k - 1);
        lemma_list_offset_drop(l, k);
        assert(b[spec_list_offset(l, k)] == brest[spec_list_offset(rest, k - 1)]);
    }
}

impl Instruction {
    /// The net number of values this instruction pushes onto the operand
    /// stack (negative: it pops). `PopScope` has a dynamic effect and yields
    /// `None`.
    pub fn stack_effect(self) -> (r: Option<isize>)
        requires
            spec_param_ok(self),
        ensures
            match r {
                Some(e) => spec_stack_effect(self) == Some(e as int),
                None => spec_stack_effect(self) is None,
            },
    {
        match self {
            Instruction::Constant(_) => Some(1),
            Instruction::InlineConstant(_) => Some(1),
            Instruction::Unary(_) => Some(0),
            Instruction::Binary(_) => Some(-1),
            Instruction::LoadLocal(_) => Some(1),
            Instruction::StoreLocal(_) => Some(-1),
            Instruction::LoadNamed(_) => Some(1),
            Instruction::StoreNamed(_) => Some(-1),
            Instruction::LoadPositionalField(_) => Some(1),
            Instruction::StorePositionalField(_) => Some(-1),
            Instruction::LoadNamedField(_) => Some(1),
            Instruction::StoreNamedField(_) => Some(-1),
            Instruction::Pop => Some(-1),
            Instruction::PopScope(_) => None,
            Instruction::Call(arity) => Some(-(arity as isize)),
            Instruction::Return => Some(-1),
            Instruction::Jump(_) => Some(0),
            Instruction::JumpIf(_) => Some(-1),
        }
    }

    /// Whether every parameter of this instruction fits its one-byte
    /// encoded form.
    pub fn params_fit(self) -> (r: bool)
        ensures
            r == spec_param_ok(self),
    {
        match self {
            Instruction::Constant(k) => k <= 255,
            Instruction::InlineConstant(_) => true,
            Instruction::Unary(_) => true,
            Instruction::Binary(_) => true,
            Instruction::LoadLocal(k) => k <= 255,
            Instruction::StoreLocal(k) => k <= 255,
            Instruction::LoadNamed(k) => k <= 255,
            Instruction::StoreNamed(k) => k <= 255,
            Instruction::LoadPositionalField(k) => k <= 255,
            Instruction::StorePositionalField(k) => k <= 255,
            Instruction::LoadNamedField(k) => k <= 255,
            Instruction::StoreNamedField(k) => k <= 255,
            Instruction::Pop => true,
            Instruction::PopScope(k) => k <= 255,
            Instruction::Call(k) => k <= 255,
            Instruction::Return => true,
            Instruction::Jump(off) => match off {
                Offset::Forward(n) => n <= 255,
                Offset::Backward(n) => n <= 255,
            },
            Instruction::JumpIf(off) => match off {
                Offset::Forward(n) => n <= 255,
                Offset::Backward(n) => n <= 255,
            },
        }
    }

    /// The length in bytes of this instruction's encoded form.
    pub fn encoded_len(self) -> (r: usize)
        ensures
            r as int == spec_encoded_len(self),
    {
        match self {
            Instruction::InlineConstant(_) => 1,
            Instruction::Pop => 1,
            Instruction::Return => 1,
            _ => 2,
        }
    }

    /// Append this instruction's encoded bytes to `out`.
    pub fn encode_into(self, out: &mut Vec<u8>)
        requires
            spec_param_ok(self),
            old(out)@.len() + 2 <= usize::MAX,
        ensures
            final(out)@ == old(out)@ + spec_encode(self),
    {
        match self {
            Instruction::Constant(k) => {
                out.push(Opcode::Constant.byte());
                out.push(k as u8);
            },
            Instruction::InlineConstant(c) => match c {
                InlineConstant::Unit => out.push(Opcode::Unit.byte()),
                InlineConstant::Bool(b) => if b {
                    out.push(Opcode::True.byte())
                } else {
                    out.push(Opcode::False.byte())
                },
            },
            Instruction::Unary(op) => {
                out.push(Opcode::Unary.byte());
                out.push(op.byte());
            },
            Instruction::Binary(op) => {
                out.push(Opcode::Binary.byte());
                out.push(op.byte());
            },
            Instruction::LoadLocal(k) => {
                out.push(Opcode::LoadLocal.byte());
                out.push(k as u8);
            },
            Instruction::StoreLocal(k) => {
                out.push(Opcode::StoreLocal.byte());
                out.push(k as u8);
            },
            Instruction::LoadNamed(k) => {
                out.push(Opcode::LoadNamed.byte());
                out.push(k as u8);
            },
            Instruction::StoreNamed(k) => {
                out.push(Opcode::StoreNamed.byte());
                out.push(k as u8);
            },
            Instruction::LoadPositionalField(k) => {
                out.push(Opcode::LoadPositionalField.byte());
                out.push(k as u8);
            },
            Instruction::StorePositionalField(k) => {
                out.push(Opcode::StorePositionalField.byte());
                out.push(k as u8);
            },
            Instruction::LoadNamedField(k) => {
                out.push(Opcode::LoadNamedField.byte());
                out.push(k as u8);
            },
            Instruction::StoreNamedField(k) => {
                out.push(Opcode::StoreNamedField.byte());
                out.push(k as u8);
            },
            Instruction::Pop => out.push(Opcode::Pop.byte()),
            Instruction::PopScope(k) => {
                out.push(Opcode::PopScope.byte());
                out.push(k as u8);
            },
            Instruction::Call(k) => {
                out.push(Opcode::Call.byte());
                out.push(k as u8);
            },
            Instruction::Return => out.push(Opcode::Return.byte()),
            Instruction::Jump(off) => match off {
                Offset::Forward(n) => {
                    out.push(Opcode::JumpForward.byte());
                    out.push(n as u8);
                },
                Offset::Backward(n) => {
                    out.push(Opcode::JumpBackward.byte());
                    out.push(n as u8);
                },
            },
            Instruction::JumpIf(off) => match off {
                Offset::Forward(n) => {
                    out.push(Opcode::JumpForwardIf.byte());
                    out.push(n as u8);
                },
                Offset::Backward(n) => {
                    out.push(Opcode::JumpBackwardIf.byte());
                    out.push(n as u8);
                },
            },
        }
    }
}

/// The encoded form of an instruction starts with its opcode's byte and has
/// exactly its encoded length; the opcode byte is never 0.
pub proof fn lemma_encode_shape(i: Instruction)
    requires
        spec_param_ok(i),
    ensures
        spec_encode(i).len() == spec_encoded_len(i),
        spec_encode(i)[0] != 0,
{
}

// ---------------------------------------------------------------------------
// Byte-level decoding of one instruction
// ---------------------------------------------------------------------------

/// Decode the instruction starting at `pos`, yielding it and the position
/// just after it, or the exact error the stream raises there.
pub open spec fn spec_decode(b: Seq<u8>, pos: int) -> Result<(Instruction, int)>
    recommends
        0 <= pos < b.len(),
{
    let opb = b[pos];
    match spec_opcode_of_byte(opb) {
        Option::None => Err(Error::InvalidOpcode(opb)),
        Option::Some(oc) => match oc {
            Opcode::Unit => Ok((Instruction::InlineConstant(InlineConstant::Unit), pos + 1)),
            Opcode::True => Ok((Instruction::InlineConstant(InlineConstant::Bool(true)), pos + 1)),
            Opcode::False => Ok(
                (Instruction::InlineConstant(InlineConstant::Bool(false)), pos + 1),
            ),
            Opcode::Pop => Ok((Instruction::Pop, pos + 1)),
            Opcode::Return => Ok((Instruction::Return, pos + 1)),
            _ => if pos + 2 > b.len() {
                Err(Error::IncompleteInstruction(oc))
            } else {
                let p = b[pos + 1];
                match oc {
                    Opcode::Constant => Ok((Instruction::Constant(p as usize), pos + 2)),
                    Opcode::Unary => match spec_unary_of_byte(p) {
                        Option::Some(op) => Ok((Instruction::Unary(op), pos + 2)),
                        Option::None => Err(Error::InvalidInstruction(oc)),
                    },
                    Opcode::Binary => match spec_binary_of_byte(p) {
                        Option::Some(op) => Ok((Instruction::Binary(op), pos + 2)),
                        Option::None => Err(Error::InvalidInstruction(oc)),
                    },
                    Opcode::LoadLocal => Ok((Instruction::LoadLocal(p as usize), pos + 2)),
                    Opcode::StoreLocal => Ok((Instruction::StoreLocal(p as usize), pos + 2)),
                    Opcode::LoadNamed => Ok((Instruction::LoadNamed(p as usize), pos + 2)),
                    Opcode::StoreNamed => Ok((Instruction::StoreNamed(p as usize), pos + 2)),
                    Opcode::LoadPositionalField => Ok(
                        (Instruction::LoadPositionalField(p as usize), pos + 2),
                    ),
                    Opcode::StorePositionalField => Ok(
                        (Instruction::StorePositionalField(p as usize), pos + 2),
                    ),
                    Opcode::LoadNamedField => Ok(
                        (Instruction::LoadNamedField(p as usize), pos + 2),
                    ),
                    Opcode::StoreNamedField => Ok(
                        (Instruction::StoreNamedField(p as usize), pos + 2),
                    ),
                    Opcode::PopScope => Ok((Instruction::PopScope(p as usize), pos + 2)),
                    Opcode::Call => Ok((Instruction::Call(p as usize), pos + 2)),
                    Opcode::JumpForward => Ok(
                        (Instruction::Jump(Offset::Forward(p as usize)), pos + 2),
                    ),
                    Opcode::JumpBackward => Ok(
                        (Instruction::Jump(Offset::Backward(p as usize)), pos + 2),
                    ),
                    Opcode::JumpForwardIf => Ok(
                        (Instruction::JumpIf(Offset::Forward(p as usize)), pos + 2),
                    ),
                    Opcode::JumpBackwardIf => Ok(
                        (Instruction::JumpIf(Offset::Backward(p as usize)), pos + 2),
                    ),
                    _ => Err(Error::InvalidOpcode(opb)),
                }
            },
        },
    }
}

/// Decode one instruction of `bytes` starting at `pos`.
pub fn decode_at(bytes: &Vec<u8>, pos: usize) -> (r: Result<(Instruction, usize)>)
    requires
        pos < bytes@.len(),
    ensures
        match r {
            Ok((i, next)) => spec_decode(bytes@, pos as int) == Ok::<_, Error>((i, next as int))
                && pos < next <= bytes@.len(),
            Err(e) => spec_decode(bytes@, pos as int) == Err::<(Instruction, int), _>(e),
        },
{
    let n = bytes.len();
    let opb = bytes[pos];
    let oc = match Opcode::from_byte(opb) {
        Some(oc) => oc,
        None => {
            return Err(Error::InvalidOpcode(opb));
        },
    };
    match oc {
        Opcode::Unit => Ok((Instruction::InlineConstant(InlineConstant::Unit), pos + 1)),
        Opcode::True => Ok((Instruction::InlineConstant(InlineConstant::Bool(true)), pos + 1)),
        Opcode::False => Ok((Instruction::InlineConstant(InlineConstant::Bool(false)), pos + 1)),
        Opcode::Pop => Ok((Instruction::Pop, pos + 1)),
        Opcode::Return => Ok((Instruction::Return, pos + 1)),
        _ => {
            if pos + 1 >= n {
                return Err(Error::IncompleteInstruction(oc));
            }
            let p = bytes[pos + 1];
            match oc {
                Opcode::Constant => Ok((Instruction::Constant(p as usize), pos + 2)),
                Opcode::Unary => match UnaryOperator::from_byte(p) {
                    Some(op) => Ok((Instruction::Unary(op), pos + 2)),
                    None => Err(Error::InvalidInstruction(oc)),
                },
                Opcode::Binary => match BinaryOperator::from_byte(p) {
                    Some(op) => Ok((Instruction::Binary(op), pos + 2)),
                    None => Err(Error::InvalidInstruction(oc)),
                },
                Opcode::LoadLocal => Ok((Instruction::LoadLocal(p as usize), pos + 2)),
                Opcode::StoreLocal => Ok((Instruction::StoreLocal(p as usize), pos + 2)),
                Opcode::LoadNamed => Ok((Instruction::LoadNamed(p as usize), pos + 2)),
                Opcode::StoreNamed => Ok((Instruction::StoreNamed(p as usize), pos + 2)),
                Opcode::LoadPositionalField => Ok(
                    (Instruction::LoadPositionalField(p as usize), pos + 2),
                ),
                Opcode::StorePositionalField => Ok(
                    (Instruction::StorePositionalField(p as usize), pos + 2),
                ),
                Opcode::LoadNamedField => Ok((Instruction::LoadNamedField(p as usize), pos + 2)),
                Opcode::StoreNamedField => Ok((Instruction::StoreNamedField(p as usize), pos + 2)),
                Opcode::PopScope => Ok((Instruction::PopScope(p as usize), pos + 2)),
                Opcode::Call => Ok((Instruction::Call(p as usize), pos + 2)),
                Opcode::JumpForward => Ok((Instruction::Jump(Offset::Forward(p as usize)), pos + 2)),
                Opcode::JumpBackward => Ok(
                    (Instruction::Jump(Offset::Backward(p as usize)), pos + 2),
                ),
                Opcode::JumpForwardIf => Ok(
                    (Instruction::JumpIf(Offset::Forward(p as usize)), pos + 2),
                ),
                Opcode::JumpBackwardIf => Ok(
                    (Instruction::JumpIf(Offset::Backward(p as usize)), pos + 2),
                ),
                _ => Err(Error::InvalidOpcode(opb)),
            }
        },
    }
}

/// Decoding inverts encoding: an encoded instruction placed at `pos` inside
/// any byte stream decodes back to itself.
pub proof fn lemma_decode_encode(b: Seq<u8>, pos: int, i: Instruction)
    requires
        spec_param_ok(i),
        0 <= pos,
        pos + spec_encoded_len(i) <= b.len(),
        b.subrange(pos, pos + spec_encoded_len(i)) == spec_encode(i),
    ensures
        spec_decode(b, pos) == Ok::<_, Error>((i, pos + spec_encoded_len(i))),
{
    assert(b[pos] == spec_encode(i)[0]);
    if spec_encoded_len(i) == 2 {
        assert(b[pos + 1] == spec_encode(i)[1]);
    }
}

} // verus!
