//! End-to-end runs: build a program's syntax tree, compile it, write the
//! bytecode, parse it back and execute it.

use bigdecimal::BigDecimal;

use sprachli::ast::{
    Assignment, Binary, BinaryOperator, Block, Call, Declaration, Expression, Fn, FnDeclaration,
    FnTrunk, If, Jump, Loop, SourceFile, Statement, Unary, UnaryOperator, Variable,
    VariableDeclaration, Visibility,
};
use sprachli::codec::{parse_bytecode, write_bytecode};
use sprachli::compiler::{compile_ast, Error as CompilerError};
use sprachli::value::Value;
use sprachli::vm::Vm;

fn num(s: &str) -> Expression {
    Expression::Number(s.to_string())
}

fn ident(s: &str) -> Expression {
    Expression::Identifier(s.to_string())
}

fn binary(l: Expression, op: BinaryOperator, r: Expression) -> Expression {
    Expression::Binary(Binary::new(l, op, r))
}

fn unary(op: UnaryOperator, r: Expression) -> Expression {
    Expression::Unary(Unary::new(op, r))
}

fn call(f: Expression, args: Vec<Expression>) -> Expression {
    Expression::Call(Call::new(f, args))
}

fn expr_block(e: Expression) -> Block {
    Block::new(vec![], Some(e))
}

fn var(mutable: bool, name: &str) -> Variable {
    Variable {
        mutable,
        name: name.to_string(),
    }
}

fn let_stmt(mutable: bool, name: &str, init: Expression) -> Statement {
    Statement::VariableDeclaration(VariableDeclaration::new(var(mutable, name), Some(init)))
}

fn assign(name: &str, value: Expression) -> Statement {
    Statement::Assignment(Assignment::new(ident(name), value))
}

fn fn_decl(name: &str, params: Vec<&str>, body: Block) -> Declaration {
    let params = params.iter().map(|p| var(false, p)).collect();
    Declaration::Fn(FnDeclaration::new(
        Visibility::Private,
        name.to_string(),
        FnTrunk::new(params, body),
    ))
}

fn program(decls: Vec<Declaration>) -> SourceFile {
    SourceFile {
        declarations: decls,
    }
}

fn main_program(body: Block) -> SourceFile {
    program(vec![fn_decl("main", vec![], body)])
}

/// Compile, serialize, parse back and run, as the full pipeline does.
fn run_program(file: &SourceFile) -> Result<Value, String> {
    let module = compile_ast(file).map_err(|e| format!("compile: {e:?}"))?;
    let bytes = write_bytecode(&module);
    let module = parse_bytecode(&bytes).map_err(|e| format!("bytecode: {e:?}"))?;
    Vm::new(module).run().map_err(|e| format!("runtime: {e:?}"))
}

fn assert_number(result: Result<Value, String>, expected: i64) {
    let value = result.unwrap();
    match &value {
        Value::Number(b) => {
            let actual = BigDecimal::parse_bytes(b, 10).unwrap();
            assert_eq!(actual, BigDecimal::from(expected));
        }
        other => panic!("expected a number, got {other:?}"),
    }
}

fn assert_bool(result: Result<Value, String>, expected: bool) {
    let value = result.unwrap();
    match &value {
        Value::Bool(b) => assert_eq!(*b, expected),
        other => panic!("expected a bool, got {other:?}"),
    }
}

fn run_main_expr(e: Expression) -> Result<Value, String> {
    run_program(&main_program(expr_block(e)))
}

#[test]
fn test_not() {
    assert_bool(
        run_main_expr(unary(UnaryOperator::Not, Expression::Bool(false))),
        true,
    );
    assert_bool(
        run_main_expr(unary(UnaryOperator::Not, Expression::Bool(true))),
        false,
    );
}

#[test]
fn test_neg() {
    // -(-42)
    assert_number(
        run_main_expr(unary(
            UnaryOperator::Negate,
            unary(UnaryOperator::Negate, num("42")),
        )),
        42,
    );
}

#[test]
fn test_mul() {
    assert_number(
        run_main_expr(binary(num("3"), BinaryOperator::Multiply, num("14"))),
        42,
    );
}

#[test]
fn test_div() {
    assert_number(
        run_main_expr(binary(num("84"), BinaryOperator::Divide, num("2"))),
        42,
    );
}

#[test]
fn test_mod() {
    assert_number(
        run_main_expr(binary(num("242"), BinaryOperator::Modulo, num("100"))),
        42,
    );
}

#[test]
fn test_add() {
    assert_number(
        run_main_expr(binary(num("22"), BinaryOperator::Add, num("20"))),
        42,
    );
}

#[test]
fn test_sub() {
    assert_number(
        run_main_expr(binary(num("62"), BinaryOperator::Subtract, num("20"))),
        42,
    );
}

#[test]
fn test_shr() {
    assert_number(
        run_main_expr(binary(num("168"), BinaryOperator::RightShift, num("2"))),
        42,
    );
}

#[test]
fn test_shl() {
    assert_number(
        run_main_expr(binary(num("21"), BinaryOperator::LeftShift, num("1"))),
        42,
    );
}

#[test]
fn test_bit_and() {
    assert_number(
        run_main_expr(binary(num("58"), BinaryOperator::BitAnd, num("47"))),
        42,
    );
}

#[test]
fn test_bit_xor() {
    assert_number(
        run_main_expr(binary(num("61"), BinaryOperator::BitXor, num("23"))),
        42,
    );
}

#[test]
fn test_bit_or() {
    assert_number(
        run_main_expr(binary(num("10"), BinaryOperator::BitOr, num("40"))),
        42,
    );
}

#[test]
fn test_eq() {
    assert_bool(
        run_main_expr(binary(num("42"), BinaryOperator::Equals, num("42"))),
        true,
    );
    assert_bool(
        run_main_expr(binary(num("42"), BinaryOperator::Equals, num("69"))),
        false,
    );
}

#[test]
fn test_neq() {
    assert_bool(
        run_main_expr(binary(num("42"), BinaryOperator::NotEquals, num("42"))),
        false,
    );
    assert_bool(
        run_main_expr(binary(num("42"), BinaryOperator::NotEquals, num("69"))),
        true,
    );
}

#[test]
fn test_gt() {
    assert_bool(
        run_main_expr(binary(num("42"), BinaryOperator::Greater, num("69"))),
        false,
    );
    assert_bool(
        run_main_expr(binary(num("42"), BinaryOperator::Greater, num("42"))),
        false,
    );
    assert_bool(
        run_main_expr(binary(num("69"), BinaryOperator::Greater, num("42"))),
        true,
    );
}

#[test]
fn test_lt() {
    assert_bool(
        run_main_expr(binary(num("42"), BinaryOperator::Less, num("69"))),
        true,
    );
    assert_bool(
        run_main_expr(binary(num("42"), BinaryOperator::Less, num("42"))),
        false,
    );
    assert_bool(
        run_main_expr(binary(num("69"), BinaryOperator::Less, num("42"))),
        false,
    );
}

#[test]
fn test_gte() {
    assert_bool(
        run_main_expr(binary(num("42"), BinaryOperator::GreaterEquals, num("69"))),
        false,
    );
    assert_bool(
        run_main_expr(binary(num("42"), BinaryOperator::GreaterEquals, num("42"))),
        true,
    );
    assert_bool(
        run_main_expr(binary(num("69"), BinaryOperator::GreaterEquals, num("42"))),
        true,
    );
}

#[test]
fn test_lte() {
    assert_bool(
        run_main_expr(binary(num("42"), BinaryOperator::LessEquals, num("69"))),
        true,
    );
    assert_bool(
        run_main_expr(binary(num("42"), BinaryOperator::LessEquals, num("42"))),
        true,
    );
    assert_bool(
        run_main_expr(binary(num("69"), BinaryOperator::LessEquals, num("42"))),
        false,
    );
}

/// `fn main() { let mut a = 40; a = a + 2; a }`
#[test]
fn test_assign() {
    let body = Block::new(
        vec![
            let_stmt(true, "a", num("40")),
            assign("a", binary(ident("a"), BinaryOperator::Add, num("2"))),
        ],
        Some(ident("a")),
    );
    assert_number(run_program(&main_program(body)), 42);
}

/// The same program with an immutable `let` must fail to compile.
#[test]
fn test_assign_immutable() {
    let body = Block::new(
        vec![
            let_stmt(false, "a", num("40")),
            assign("a", binary(ident("a"), BinaryOperator::Add, num("2"))),
        ],
        Some(ident("a")),
    );
    let result = compile_ast(&main_program(body));
    assert!(matches!(result, Err(CompilerError::ImmutableVariable)));
}

/// `fn main() { if true { 42 } else { 0 } }`
#[test]
fn test_bool() {
    let e = Expression::If(If::new(
        vec![(Expression::Bool(true), expr_block(num("42")))],
        Some(expr_block(num("0"))),
    ));
    assert_number(run_main_expr(e), 42);
}

/// `fn main() { loop { break 42 } }`
#[test]
fn test_break() {
    let body = Block::new(
        vec![Statement::Jump(Jump::new_break(Some(num("42"))))],
        None,
    );
    assert_number(run_main_expr(Expression::Loop(Loop::new(body))), 42);
}

/// `fn main() { let mut i = 0; loop { if i == 42 { break i } i = i + 1; continue } }`
#[test]
fn test_continue() {
    let if_break = Expression::If(If::new(
        vec![(
            binary(ident("i"), BinaryOperator::Equals, num("42")),
            Block::new(
                vec![Statement::Jump(Jump::new_break(Some(ident("i"))))],
                None,
            ),
        )],
        None,
    ));
    let loop_body = Block::new(
        vec![
            Statement::Expression(if_break),
            assign("i", binary(ident("i"), BinaryOperator::Add, num("1"))),
            Statement::Jump(Jump::Continue),
        ],
        None,
    );
    let body = Block::new(
        vec![let_stmt(true, "i", num("0"))],
        Some(Expression::Loop(Loop::new(loop_body))),
    );
    assert_number(run_program(&main_program(body)), 42);
}

/// `fn main() { "a\r\nb\"c" }` — the literal as written in source.
#[test]
fn test_escape() {
    let literal = "\"a\\r\\nb\\\"c\"".to_string();
    let value = run_main_expr(Expression::String(literal)).unwrap();
    match &value {
        Value::String(b) => assert_eq!(b.as_slice(), "a\r\nb\"c".as_bytes()),
        other => panic!("expected a string, got {other:?}"),
    }
}

/// `fn is_even(x) { if x >= 2 { is_even(x - 2) } else { x == 0 } }`
/// `fn main() { is_even(42) }`
#[test]
fn test_even() {
    let is_even_body = expr_block(Expression::If(If::new(
        vec![(
            binary(ident("x"), BinaryOperator::GreaterEquals, num("2")),
            expr_block(call(
                ident("is_even"),
                vec![binary(ident("x"), BinaryOperator::Subtract, num("2"))],
            )),
        )],
        Some(expr_block(binary(
            ident("x"),
            BinaryOperator::Equals,
            num("0"),
        ))),
    )));
    let file = program(vec![
        fn_decl("is_even", vec!["x"], is_even_body),
        fn_decl(
            "main",
            vec![],
            expr_block(call(ident("is_even"), vec![num("42")])),
        ),
    ]);
    assert_bool(run_program(&file), true);
}

/// `fn main() { (fn(x) { x + 1 })(41) }`
#[test]
fn test_fn_expr() {
    let lambda = Expression::Fn(Fn::new(FnTrunk::new(
        vec![var(false, "x")],
        expr_block(binary(ident("x"), BinaryOperator::Add, num("1"))),
    )));
    assert_number(run_main_expr(call(lambda, vec![num("41")])), 42);
}

/// `fn apply(f, x) { f(x) }  fn add_two(x) { x + 2 }  fn main() { apply(add_two, 40) }`
#[test]
fn test_higher_order() {
    let file = program(vec![
        fn_decl(
            "apply",
            vec!["f", "x"],
            expr_block(call(ident("f"), vec![ident("x")])),
        ),
        fn_decl(
            "add_two",
            vec!["x"],
            expr_block(binary(ident("x"), BinaryOperator::Add, num("2"))),
        ),
        fn_decl(
            "main",
            vec![],
            expr_block(call(ident("apply"), vec![ident("add_two"), num("40")])),
        ),
    ]);
    assert_number(run_program(&file), 42);
}

/// `fn main() { let mut i = 0; loop { if i == 42 { break i } i = i + 1 } }`
#[test]
fn test_loop() {
    fn loop_check() -> Expression {
        Expression::If(If::new(
            vec![(
                binary(ident("i"), BinaryOperator::Equals, num("42")),
                Block::new(
                    vec![Statement::Jump(Jump::new_break(Some(ident("i"))))],
                    None,
                ),
            )],
            None,
        ))
    }
    let loop_body = Block::new(
        vec![
            Statement::Expression(loop_check()),
            assign("i", binary(ident("i"), BinaryOperator::Add, num("1"))),
        ],
        None,
    );
    let body = Block::new(
        vec![let_stmt(true, "i", num("0"))],
        Some(Expression::Loop(Loop::new(loop_body))),
    );
    assert_number(run_program(&main_program(body)), 42);
}

/// `fn max(a, b) { if a >= b { a } else { b } }  fn main() { max(12, 42) }`
#[test]
fn test_max() {
    let max_body = expr_block(Expression::If(If::new(
        vec![(
            binary(ident("a"), BinaryOperator::GreaterEquals, ident("b")),
            expr_block(ident("a")),
        )],
        Some(expr_block(ident("b"))),
    )));
    let file = program(vec![
        fn_decl("max", vec!["a", "b"], max_body),
        fn_decl(
            "main",
            vec![],
            expr_block(call(ident("max"), vec![num("12"), num("42")])),
        ),
    ]);
    assert_number(run_program(&file), 42);
}

/// `fn main() { return 42; }`
#[test]
fn test_return() {
    let body = Block::new(
        vec![Statement::Jump(Jump::new_return(Some(num("42"))))],
        None,
    );
    assert_number(run_program(&main_program(body)), 42);
}

/// `fn main() { 1 + 1; 42 }`
#[test]
fn test_statement() {
    let body = Block::new(
        vec![Statement::Expression(binary(
            num("1"),
            BinaryOperator::Add,
            num("1"),
        ))],
        Some(num("42")),
    );
    assert_number(run_program(&main_program(body)), 42);
}

/// `fn main() { let a = 40; let b = 2; a + b }`
#[test]
fn test_variable() {
    let body = Block::new(
        vec![
            let_stmt(false, "a", num("40")),
            let_stmt(false, "b", num("2")),
        ],
        Some(binary(ident("a"), BinaryOperator::Add, ident("b"))),
    );
    assert_number(run_program(&main_program(body)), 42);
}
