//! The library's stated properties exercised on concrete values: the codec
//! round trip, constant interning, the bytecode file shape, the reserved
//! opcode, repeated runs, and the error paths of the compiler, the parser
//! and the machine.

use sprachli::ast::{
    Assignment, Binary, BinaryOperator, Block, Call, Declaration, Expression, FnDeclaration,
    FnTrunk, Jump, Path, SourceFile, Statement, Struct as AstStruct, StructMembers, Use, Variable,
    Visibility,
};
use sprachli::codec::{parse_bytecode, write_bytecode};
use sprachli::compiler::{
    compile_ast, compile_to_bytes, Error as CompilerError,
    InternalError as CompilerInternalError, UnsupportedConstruct,
};
use sprachli::decoder::InstructionSequence;
use sprachli::instruction::{decode_at, Error as BytecodeError, Instruction, Offset};
use sprachli::module::{Constant, Struct as ModuleStruct};
use sprachli::value::{Error as RuntimeError, ExpectedKind, InternalError, RuntimeUnsupported};
use sprachli::vm::{run_bytecode, run_bytecode_with_fuel, Vm};
use sprachli::strings::{string_from_literal, ParseStringError};

fn num(s: &str) -> Expression {
    Expression::Number(s.to_string())
}

fn ident(s: &str) -> Expression {
    Expression::Identifier(s.to_string())
}

fn binary(l: Expression, op: BinaryOperator, r: Expression) -> Expression {
    Expression::Binary(Binary::new(l, op, r))
}

fn main_program(e: Expression) -> SourceFile {
    SourceFile {
        declarations: vec![Declaration::Fn(FnDeclaration::new(
            Visibility::Private,
            "main".to_string(),
            FnTrunk::new(vec![], Block::new(vec![], Some(e))),
        ))],
    }
}

/// Round trip: parsing a written module yields the same constants, globals
/// and struct descriptors, and function bodies byte for byte.
#[test]
fn round_trip_of_compiled_module() {
    let file = main_program(binary(num("21"), BinaryOperator::Multiply, num("2")));
    let module = compile_ast(&file).unwrap();
    let bytes = write_bytecode(&module);
    let parsed = parse_bytecode(&bytes).unwrap();
    assert_eq!(parsed, module);
    // and writing the parsed module reproduces the bytes
    let again = write_bytecode(&parsed);
    assert_eq!(again, bytes);
}

/// The round trip also stands with trailing bytes after the module.
#[test]
fn round_trip_ignores_trailing_bytes() {
    let file = main_program(num("7"));
    let module = compile_ast(&file).unwrap();
    let mut bytes = write_bytecode(&module);
    bytes.push(0xFF);
    bytes.push(0x00);
    let parsed = parse_bytecode(&bytes).unwrap();
    assert_eq!(parsed, module);
}

/// Interning: two syntactically equal literals share one pool entry.
#[test]
fn interning_deduplicates_constants() {
    let file = main_program(binary(num("42"), BinaryOperator::Add, num("42")));
    let module = compile_ast(&file).unwrap();
    let numbers: Vec<&Constant> = module
        .constants()
        .iter()
        .filter(|c| matches!(c, Constant::Number(_)))
        .collect();
    assert_eq!(numbers.len(), 1);
    match numbers[0] {
        Constant::Number(b) => assert_eq!(b.as_slice(), b"42"),
        _ => unreachable!(),
    }
}

/// The first eight bytes of every bytecode file are `sprachli`.
#[test]
fn file_opens_with_magic() {
    let bytes = compile_to_bytes(&main_program(num("1"))).unwrap();
    assert_eq!(&bytes[0..8], b"sprachli");
}

/// Opcode 0 is never emitted; decoding it is an error.
#[test]
fn opcode_zero_never_emitted() {
    let file = main_program(binary(num("21"), BinaryOperator::Multiply, num("2")));
    let module = compile_ast(&file).unwrap();
    for c in module.constants().iter() {
        if let Constant::Function(f) = c {
            // walk the instruction boundaries; every opcode byte is nonzero
            let seq = InstructionSequence::new(f.body().clone());
            let mut pos = 0;
            while pos < seq.get().len() {
                assert_ne!(seq.get()[pos], 0);
                let (_, next) = decode_at(seq.get(), pos).unwrap();
                pos = next;
            }
        }
    }
    let zero = vec![0u8];
    assert!(matches!(
        decode_at(&zero, 0),
        Err(BytecodeError::InvalidOpcode(0))
    ));
}

/// Running the same module twice yields the same result and leaves the
/// module unchanged.
#[test]
fn repeated_runs_agree() {
    let file = main_program(binary(num("40"), BinaryOperator::Add, num("2")));
    let module = compile_ast(&file).unwrap();
    let copy = parse_bytecode(&write_bytecode(&module)).unwrap();
    let first = Vm::new(parse_bytecode(&write_bytecode(&module)).unwrap())
        .run()
        .unwrap();
    let second = Vm::new(parse_bytecode(&write_bytecode(&module)).unwrap())
        .run()
        .unwrap();
    assert_eq!(first, second);
    // the module value itself was never touched by either run
    assert_eq!(copy, module);
}

/// A tiny step budget ends a long-running program with the limit error.
#[test]
fn fuel_limit_reported() {
    let file = main_program(binary(num("40"), BinaryOperator::Add, num("2")));
    let bytes = compile_to_bytes(&file).unwrap();
    let r = run_bytecode_with_fuel(&bytes, 1);
    assert!(matches!(
        r,
        Err(RuntimeError::Internal(InternalError::ExecutionLimit))
    ));
    // with enough budget the same bytes produce the result
    let v = run_bytecode(&bytes).unwrap();
    assert_eq!(v.as_number().unwrap().as_slice(), b"42");
}

#[test]
fn unbound_global_is_name_error() {
    let file = main_program(ident("nope"));
    let bytes = compile_to_bytes(&file).unwrap();
    let r = run_bytecode(&bytes);
    assert!(matches!(r, Err(RuntimeError::NameError(n)) if n.as_slice() == b"nope"));
}

#[test]
fn arity_mismatch_is_value_error() {
    let id_fn = Declaration::Fn(FnDeclaration::new(
        Visibility::Private,
        "id".to_string(),
        FnTrunk::new(
            vec![Variable {
                mutable: false,
                name: "x".to_string(),
            }],
            Block::new(vec![], Some(ident("x"))),
        ),
    ));
    let main_fn = Declaration::Fn(FnDeclaration::new(
        Visibility::Private,
        "main".to_string(),
        FnTrunk::new(
            vec![],
            Block::new(
                vec![],
                Some(Expression::Call(Call::new(ident("id"), vec![]))),
            ),
        ),
    ));
    let file = SourceFile {
        declarations: vec![id_fn, main_fn],
    };
    let bytes = compile_to_bytes(&file).unwrap();
    let r = run_bytecode(&bytes);
    assert!(matches!(r, Err(RuntimeError::ValueError(1, 0))));
}

#[test]
fn wrong_operand_is_type_error() {
    let file = main_program(binary(num("1"), BinaryOperator::Add, Expression::Bool(true)));
    let bytes = compile_to_bytes(&file).unwrap();
    let r = run_bytecode(&bytes);
    assert!(matches!(
        r,
        Err(RuntimeError::TypeError(ExpectedKind::Number))
    ));
}

#[test]
fn division_by_zero_is_reported() {
    let file = main_program(binary(num("1"), BinaryOperator::Divide, num("0")));
    let bytes = compile_to_bytes(&file).unwrap();
    let r = run_bytecode(&bytes);
    assert!(matches!(r, Err(RuntimeError::DivisionByZero)));
}

#[test]
fn shift_requires_integral_operand() {
    let file = main_program(binary(
        num("1.5"),
        BinaryOperator::LeftShift,
        num("1"),
    ));
    let bytes = compile_to_bytes(&file).unwrap();
    let r = run_bytecode(&bytes);
    assert!(matches!(
        r,
        Err(RuntimeError::TypeError(ExpectedKind::IntegralNumber))
    ));
}

#[test]
fn use_declaration_unsupported() {
    let file = SourceFile {
        declarations: vec![Declaration::Use(Use {
            visibility: Visibility::Private,
            path: Path { segments: vec![] },
            name: None,
        })],
    };
    let r = compile_ast(&file);
    assert!(matches!(
        r,
        Err(CompilerError::Unsupported(
            UnsupportedConstruct::UseDeclaration
        ))
    ));
}

#[test]
fn invalid_number_literal_rejected() {
    let file = main_program(Expression::Number("not-a-number".to_string()));
    let r = compile_ast(&file);
    assert!(matches!(
        r,
        Err(CompilerError::Internal(
            CompilerInternalError::InvalidNumberLiteral
        ))
    ));
}

#[test]
fn break_outside_loop_rejected() {
    let body = Block::new(vec![Statement::Jump(Jump::new_break(None))], None);
    let file = SourceFile {
        declarations: vec![Declaration::Fn(FnDeclaration::new(
            Visibility::Private,
            "main".to_string(),
            FnTrunk::new(vec![], body),
        ))],
    };
    assert!(matches!(compile_ast(&file), Err(CompilerError::NoLoopToExit)));
}

#[test]
fn assignment_target_must_be_identifier() {
    let body = Block::new(
        vec![Statement::Assignment(Assignment::new(num("1"), num("2")))],
        None,
    );
    let file = SourceFile {
        declarations: vec![Declaration::Fn(FnDeclaration::new(
            Visibility::Private,
            "main".to_string(),
            FnTrunk::new(vec![], body),
        ))],
    };
    assert!(matches!(
        compile_ast(&file),
        Err(CompilerError::InvalidAssignmentTarget)
    ));
}

#[test]
fn global_mutation_unsupported_at_runtime() {
    // an assignment to a name that resolves to no local becomes a global
    // store, which the runtime rejects
    let body = Block::new(
        vec![Statement::Assignment(Assignment::new(ident("g"), num("1")))],
        Some(num("42")),
    );
    let file = SourceFile {
        declarations: vec![Declaration::Fn(FnDeclaration::new(
            Visibility::Private,
            "main".to_string(),
            FnTrunk::new(vec![], body),
        ))],
    };
    let bytes = compile_to_bytes(&file).unwrap();
    assert!(matches!(
        run_bytecode(&bytes),
        Err(RuntimeError::Unsupported(RuntimeUnsupported::GlobalMutation))
    ));
}

#[test]
fn struct_declarations_round_trip() {
    let file = SourceFile {
        declarations: vec![
            Declaration::Struct(AstStruct::new(
                Visibility::Private,
                "Marker".to_string(),
                StructMembers::Empty,
            )),
            Declaration::Struct(AstStruct::new(
                Visibility::Private,
                "Pair".to_string(),
                StructMembers::Positional(vec!["a".to_string(), "b".to_string()]),
            )),
            Declaration::Struct(AstStruct::new(
                Visibility::Private,
                "Point".to_string(),
                StructMembers::Named(vec!["x".to_string(), "y".to_string()]),
            )),
        ],
    };
    let module = compile_ast(&file).unwrap();
    let parsed = parse_bytecode(&write_bytecode(&module)).unwrap();
    assert_eq!(parsed, module);
    assert!(matches!(
        parsed.strucct(&b"Marker".to_vec()),
        Some(ModuleStruct::Empty)
    ));
    assert!(matches!(
        parsed.strucct(&b"Pair".to_vec()),
        Some(ModuleStruct::Positional(2))
    ));
    match parsed.strucct(&b"Point".to_vec()) {
        Some(ModuleStruct::Named(fields)) => assert_eq!(fields.len(), 2),
        other => panic!("expected a named struct, got {other:?}"),
    }
    assert!(parsed.strucct(&b"Absent".to_vec()).is_none());
}

#[test]
fn parse_rejects_short_input() {
    let bytes = vec![1u8, 2, 3];
    assert!(matches!(
        parse_bytecode(&bytes),
        Err(BytecodeError::UnexpectedEnd)
    ));
}

#[test]
fn parse_rejects_wrong_magic() {
    let bytes = b"sprockli\x00\x00\x00\x00\x00\x00\x00\x00".to_vec();
    assert!(matches!(
        parse_bytecode(&bytes),
        Err(BytecodeError::InvalidMagic)
    ));
}

#[test]
fn parse_rejects_bad_number_constant() {
    // magic, version 0, one constant: kind 0 (number), len 1, byte 'x',
    // then empty globals and structs
    let mut bytes = b"sprachli".to_vec();
    bytes.extend_from_slice(&[0, 0, 0, 1, 0, 0, 1, b'x', 0, 0, 0, 0]);
    assert!(matches!(
        parse_bytecode(&bytes),
        Err(BytecodeError::InvalidNumberConstant)
    ));
}

#[test]
fn parse_rejects_unknown_constant_kind() {
    let mut bytes = b"sprachli".to_vec();
    bytes.extend_from_slice(&[0, 0, 0, 1, 9, 0, 0, 0, 0, 0, 0]);
    assert!(matches!(
        parse_bytecode(&bytes),
        Err(BytecodeError::InvalidConstantKind)
    ));
}

#[test]
fn parse_rejects_dangling_global_name() {
    // no constants, one global whose name index 0 is out of range
    let mut bytes = b"sprachli".to_vec();
    bytes.extend_from_slice(&[0, 0, 0, 0, 0, 1, 0, 0, 0, 0, 0, 0]);
    assert!(matches!(
        parse_bytecode(&bytes),
        Err(BytecodeError::InvalidConstantRef(0, 0))
    ));
}

#[test]
fn parse_rejects_dangling_global_value() {
    // one string constant, one global binding it to constant 5 of 1
    let mut bytes = b"sprachli".to_vec();
    bytes.extend_from_slice(&[0, 0, 0, 1, 1, 0, 1, b'm', 0, 1, 0, 0, 0, 5, 0, 0]);
    assert!(matches!(
        parse_bytecode(&bytes),
        Err(BytecodeError::InvalidConstantRef(5, 1))
    ));
}

#[test]
fn string_literal_escapes_resolved() {
    let lit = b"\"a\\tb\"".to_vec();
    assert_eq!(string_from_literal(&lit).unwrap(), b"a\tb".to_vec());
    let lit = b"\"\\\\ and \\\"\"".to_vec();
    assert_eq!(
        string_from_literal(&lit).unwrap(),
        b"\\ and \"".to_vec()
    );
}

#[test]
fn string_literal_errors_reported() {
    assert!(matches!(
        string_from_literal(&b"no quote".to_vec()),
        Err(ParseStringError::MissingOpenQuote)
    ));
    assert!(matches!(
        string_from_literal(&b"\"open".to_vec()),
        Err(ParseStringError::MissingClosedQuote)
    ));
    assert!(matches!(
        string_from_literal(&b"\"bad \\q\"".to_vec()),
        Err(ParseStringError::IllegalEscapeSequence(113))
    ));
    assert!(matches!(
        string_from_literal(&b"\"a\" trailing".to_vec()),
        Err(ParseStringError::TrailingContent)
    ));
    assert!(matches!(
        string_from_literal(&b"\"end with slash\\".to_vec()),
        Err(ParseStringError::UnfinishedEscapeSequence)
    ));
}

#[test]
fn decoder_iterates_and_jumps() {
    // a body with three instructions at offsets 0, 2 and 3
    let seq = InstructionSequence::new(vec![
        1, 0, // load constant 0
        15, // pop
        2, // inline unit
    ]);
    let mut iter = seq.iter();
    assert_eq!(iter.offset(), 0);
    assert!(matches!(iter.next(), Some(Ok(Instruction::Constant(0)))));
    assert_eq!(iter.offset(), 2);
    assert!(matches!(iter.next(), Some(Ok(Instruction::Pop))));
    // jump back over the pop and read it again
    assert!(iter.jump(Offset::Backward(1)).is_ok());
    assert!(matches!(iter.next(), Some(Ok(Instruction::Pop))));
    // an out-of-range jump is refused and leaves the cursor in place
    assert!(iter.jump(Offset::Forward(100)).is_err());
    assert_eq!(iter.offset(), 3);
    let mut offsets = seq.iter().with_offset();
    assert!(matches!(offsets.next(), Some((0, Ok(Instruction::Constant(0))))));
    assert!(matches!(offsets.next(), Some((2, Ok(Instruction::Pop)))));
    assert!(matches!(offsets.next(), Some((3, _))));
    assert!(offsets.next().is_none());
}

#[test]
fn runtime_rejects_reserved_opcode() {
    // a hand-built file whose `main` body is the single reserved byte 0
    let mut bytes = b"sprachli".to_vec();
    bytes.extend_from_slice(&[0, 0]); // version
    bytes.extend_from_slice(&[0, 2]); // two constants
    bytes.extend_from_slice(&[1, 0, 4]);
    bytes.extend_from_slice(b"main");
    bytes.extend_from_slice(&[2, 0, 0, 0, 1, 0]); // fn of arity 0, body [0]
    bytes.extend_from_slice(&[0, 1, 0, 0, 0, 1]); // one global: main -> 1
    bytes.extend_from_slice(&[0, 0]); // no structs
    let r = run_bytecode(&bytes);
    assert!(matches!(
        r,
        Err(RuntimeError::Internal(InternalError::InvalidBytecode(
            BytecodeError::InvalidOpcode(0)
        )))
    ));
}
