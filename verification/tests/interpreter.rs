//! Whole-program evaluation cases, run through the compiler and the
//! virtual machine.

use bigdecimal::BigDecimal;

use sprachli::ast::{
    Binary, BinaryOperator, Block, Call, Declaration, Expression, FnDeclaration, FnTrunk,
    SourceFile, Unary, UnaryOperator, Variable, Visibility,
};
use sprachli::codec::{parse_bytecode, write_bytecode};
use sprachli::compiler::compile_ast;
use sprachli::value::Value;
use sprachli::vm::Vm;

fn num(s: &str) -> Expression {
    Expression::Number(s.to_string())
}

fn ident(s: &str) -> Expression {
    Expression::Identifier(s.to_string())
}

fn binary(l: Expression, op: BinaryOperator, r: Expression) -> Expression {
    Expression::Binary(Binary::new(l, op, r))
}

fn fn_decl(name: &str, params: Vec<&str>, body: Block) -> Declaration {
    let params = params
        .iter()
        .map(|p| Variable {
            mutable: false,
            name: p.to_string(),
        })
        .collect();
    Declaration::Fn(FnDeclaration::new(
        Visibility::Private,
        name.to_string(),
        FnTrunk::new(params, body),
    ))
}

fn run(file: SourceFile) -> Value {
    let module = compile_ast(&file).unwrap();
    let module = parse_bytecode(&write_bytecode(&module)).unwrap();
    Vm::new(module).run().unwrap()
}

fn run_main(e: Option<Expression>) -> Value {
    run(SourceFile {
        declarations: vec![fn_decl("main", vec![], Block::new(vec![], e))],
    })
}

fn number(v: &Value) -> BigDecimal {
    match v {
        Value::Number(b) => BigDecimal::parse_bytes(b, 10).unwrap(),
        other => panic!("expected a number, got {other:?}"),
    }
}

#[test]
fn test_interpreter() {
    // fn main() {}
    assert!(matches!(run_main(None), Value::Unit));
    // fn main() { 42 }
    assert_eq!(number(&run_main(Some(num("42")))), BigDecimal::from(42));
    // fn main() { 21 * 2 }
    assert_eq!(
        number(&run_main(Some(binary(
            num("21"),
            BinaryOperator::Multiply,
            num("2")
        )))),
        BigDecimal::from(42)
    );
    // fn main() { 22 + 20 }
    assert_eq!(
        number(&run_main(Some(binary(
            num("22"),
            BinaryOperator::Add,
            num("20")
        )))),
        BigDecimal::from(42)
    );
    // fn main() { 22 >= 20 }
    assert_eq!(
        run_main(Some(binary(
            num("22"),
            BinaryOperator::GreaterEquals,
            num("20")
        ))),
        Value::Bool(true)
    );
    // fn main() { -22 < 20 }
    assert_eq!(
        run_main(Some(binary(
            Expression::Unary(Unary::new(UnaryOperator::Negate, num("22"))),
            BinaryOperator::Less,
            num("20")
        ))),
        Value::Bool(true)
    );
    // fn main() { 5 == 10 }
    assert_eq!(
        run_main(Some(binary(num("5"), BinaryOperator::Equals, num("10")))),
        Value::Bool(false)
    );
    // fn foo() { 42 } fn main() { foo() }
    let file = SourceFile {
        declarations: vec![
            fn_decl("foo", vec![], Block::new(vec![], Some(num("42")))),
            fn_decl(
                "main",
                vec![],
                Block::new(
                    vec![],
                    Some(Expression::Call(Call::new(ident("foo"), vec![]))),
                ),
            ),
        ],
    };
    assert_eq!(number(&run(file)), BigDecimal::from(42));
    // fn foo(a) { -a } fn main() { foo(-42) }
    let file = SourceFile {
        declarations: vec![
            fn_decl(
                "foo",
                vec!["a"],
                Block::new(
                    vec![],
                    Some(Expression::Unary(Unary::new(
                        UnaryOperator::Negate,
                        ident("a"),
                    ))),
                ),
            ),
            fn_decl(
                "main",
                vec![],
                Block::new(
                    vec![],
                    Some(Expression::Call(Call::new(
                        ident("foo"),
                        vec![Expression::Unary(Unary::new(
                            UnaryOperator::Negate,
                            num("42"),
                        ))],
                    ))),
                ),
            ),
        ],
    };
    assert_eq!(number(&run(file)), BigDecimal::from(42));
    // fn main() { 5 == { 10 } }
    assert_eq!(
        run_main(Some(binary(
            num("5"),
            BinaryOperator::Equals,
            Expression::Block(Block::new(vec![], Some(num("10"))))
        ))),
        Value::Bool(false)
    );
}
