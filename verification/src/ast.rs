//! Abstract syntax of the source language: declarations, statements and
//! expressions, as handed to the bytecode compiler.

use vstd::prelude::*;

verus! {

/// Binary operators of the source language, in their fixed encoding order.
#[derive(Clone, Copy, Debug, PartialEq, Eq, Structural)]
pub enum BinaryOperator {
    Multiply,
    Divide,
    Modulo,
    Add,
    Subtract,
    RightShift,
    LeftShift,
    BitAnd,
    BitXor,
    BitOr,
    Equals,
    NotEquals,
    Greater,
    GreaterEquals,
    Less,
    LessEquals,
}

/// Unary operators of the source language.
#[derive(Clone, Copy, Debug, PartialEq, Eq, Structural)]
pub enum UnaryOperator {
    Negate,
    Not,
}

/// The contents of a source file: its top-level declarations.
#[derive(Debug, PartialEq, Eq)]
pub struct SourceFile {
    pub declarations: Vec<Declaration>,
}

/// The constructs that can stand at the top level of a source file.
#[derive(Debug, PartialEq, Eq)]
pub enum Declaration {
    Use(Use),
    Fn(FnDeclaration),
    Struct(Struct),
    Mixin(Mixin),
    Impl(Impl),
}

/// A possibly qualified name for some declaration.
#[derive(Clone, Debug, PartialEq, Eq)]
pub struct Path {
    pub segments: Vec<PathSegment>,
}

/// A single part of a path.
#[derive(Clone, Debug, PartialEq, Eq)]
pub enum PathSegment {
    Root,
    Super,
    Name(String),
}

/// Whether a construct can be accessed from other modules.
#[derive(Clone, Copy, Debug, PartialEq, Eq, Structural)]
pub enum Visibility {
    Private,
    Public,
}

/// A use declaration: it makes a named declaration available in the current
/// scope, optionally under another name.
#[derive(Debug, PartialEq, Eq)]
pub struct Use {
    pub visibility: Visibility,
    pub path: Path,
    pub name: Option<String>,
}

/// A named function declaration.
#[derive(Debug, PartialEq, Eq)]
pub struct FnDeclaration {
    pub visibility: Visibility,
    pub name: String,
    pub trunk: FnTrunk,
}

impl FnDeclaration {
    pub fn new(visibility: Visibility, name: String, trunk: FnTrunk) -> (r: FnDeclaration)
        ensures
            r.visibility == visibility,
            r.name == name,
            r.trunk == trunk,
    {
        FnDeclaration { visibility, name, trunk }
    }

    /// The same function, already wrapped as a top-level declaration.
    pub fn new_declaration(visibility: Visibility, name: String, trunk: FnTrunk) -> (r:
        Declaration)
        ensures
            r matches Declaration::Fn(d) && d.visibility == visibility && d.name == name
                && d.trunk == trunk,
    {
        Declaration::Fn(FnDeclaration { visibility, name, trunk })
    }
}

/// A struct declaration.
#[derive(Debug, PartialEq, Eq)]
pub struct Struct {
    pub visibility: Visibility,
    pub name: String,
    pub members: StructMembers,
}

impl Struct {
    pub fn new(visibility: Visibility, name: String, members: StructMembers) -> (r: Struct)
        ensures
            r.visibility == visibility,
            r.name == name,
            r.members == members,
    {
        Struct { visibility, name, members }
    }

    /// The same struct, already wrapped as a top-level declaration.
    pub fn new_declaration(visibility: Visibility, name: String, members: StructMembers) -> (r:
        Declaration)
        ensures
            r matches Declaration::Struct(d) && d.visibility == visibility && d.name == name
                && d.members == members,
    {
        Declaration::Struct(Struct { visibility, name, members })
    }
}

/// The field list of a struct declaration.
#[derive(Debug, PartialEq, Eq)]
pub enum StructMembers {
    Empty,
    Positional(Vec<String>),
    Named(Vec<String>),
}

/// A mixin declaration.
#[derive(Debug, PartialEq, Eq)]
pub struct Mixin {
    pub visibility: Visibility,
    pub name: String,
    pub inheritances: Vec<Path>,
    pub methods: Vec<FnDeclaration>,
}

/// An impl block, supplementing the struct of the same name.
#[derive(Debug, PartialEq, Eq)]
pub struct Impl {
    pub name: String,
    pub inheritances: Vec<Path>,
    pub methods: Vec<FnDeclaration>,
}

/// A named binding: a formal parameter or a `let` variable.
#[derive(Clone, Debug, PartialEq, Eq)]
pub struct Variable {
    pub mutable: bool,
    pub name: String,
}

/// A function's formal parameters and body, shared by named declarations
/// and function expressions.
#[derive(Debug, PartialEq, Eq)]
pub struct FnTrunk {
    pub formal_parameters: Vec<Variable>,
    pub body: Block,
}

impl FnTrunk {
    pub fn new(formal_parameters: Vec<Variable>, body: Block) -> (r: FnTrunk)
        ensures
            r.formal_parameters == formal_parameters,
            r.body == body,
    {
        FnTrunk { formal_parameters, body }
    }
}

/// An expression. Number and string literals carry their source text,
/// quotes and escapes included.
#[derive(Debug, PartialEq, Eq)]
pub enum Expression {
    Number(String),
    Bool(bool),
    String(String),
    Identifier(String),
    Binary(Binary),
    Unary(Unary),
    Call(Call),
    Block(Block),
    Fn(Fn),
    If(If),
    Loop(Loop),
}

/// A binary operation.
#[derive(Debug, PartialEq, Eq)]
pub struct Binary {
    pub operator: BinaryOperator,
    pub left: Box<Expression>,
    pub right: Box<Expression>,
}

impl Binary {
    pub fn new(left: Expression, operator: BinaryOperator, right: Expression) -> (r: Binary)
        ensures
            r.operator == operator,
            *r.left == left,
            *r.right == right,
    {
        Binary { operator, left: Box::new(left), right: Box::new(right) }
    }
}

/// A unary operation.
#[derive(Debug, PartialEq, Eq)]
pub struct Unary {
    pub operator: UnaryOperator,
    pub right: Box<Expression>,
}

impl Unary {
    pub fn new(operator: UnaryOperator, right: Expression) -> (r: Unary)
        ensures
            r.operator == operator,
            *r.right == right,
    {
        Unary { operator, right: Box::new(right) }
    }
}

/// A call: the callee expression, then the actual parameters in order.
#[derive(Debug, PartialEq, Eq)]
pub struct Call {
    pub function: Box<Expression>,
    pub actual_parameters: Vec<Expression>,
}

impl Call {
    pub fn new(function: Expression, actual_parameters: Vec<Expression>) -> (r: Call)
        ensures
            *r.function == function,
            r.actual_parameters == actual_parameters,
    {
        Call { function: Box::new(function), actual_parameters }
    }
}

/// A block: statements followed by an optional trailing expression, whose
/// value the block yields (unit if absent).
#[derive(Debug, PartialEq, Eq)]
pub struct Block {
    pub statements: Vec<Statement>,
    pub expression: Option<Box<Expression>>,
}

impl Block {
    pub fn new(statements: Vec<Statement>, expression: Option<Expression>) -> (r: Block)
        ensures
            r.statements == statements,
            match expression {
                Some(e) => r.expression matches Some(b) && *b == e,
                None => r.expression is None,
            },
    {
        match expression {
            Some(e) => Block { statements, expression: Some(Box::new(e)) },
            None => Block { statements, expression: None },
        }
    }
}

/// A function expression.
#[derive(Debug, PartialEq, Eq)]
pub struct Fn {
    pub trunk: FnTrunk,
}

impl Fn {
    pub fn new(trunk: FnTrunk) -> (r: Fn)
        ensures
            r.trunk == trunk,
    {
        Fn { trunk }
    }
}

/// An `if` chain: condition/block arms in order, then an optional `else`.
#[derive(Debug, PartialEq, Eq)]
pub struct If {
    pub then_branches: Vec<(Expression, Block)>,
    pub else_branch: Option<Block>,
}

impl If {
    pub fn new(then_branches: Vec<(Expression, Block)>, else_branch: Option<Block>) -> (r: If)
        ensures
            r.then_branches == then_branches,
            r.else_branch == else_branch,
    {
        If { then_branches, else_branch }
    }
}

/// A `loop` expression.
#[derive(Debug, PartialEq, Eq)]
pub struct Loop {
    pub body: Block,
}

impl Loop {
    pub fn new(body: Block) -> (r: Loop)
        ensures
            r.body == body,
    {
        Loop { body }
    }
}

/// A statement.
#[derive(Debug, PartialEq, Eq)]
pub enum Statement {
    Declaration(Declaration),
    Expression(Expression),
    Jump(Jump),
    VariableDeclaration(VariableDeclaration),
    Assignment(Assignment),
}

/// A nonlocal exit: `return`, `break` or `continue`.
#[derive(Debug, PartialEq, Eq)]
pub enum Jump {
    Return(Option<Box<Expression>>),
    Break(Option<Box<Expression>>),
    Continue,
}

impl Jump {
    pub fn new_return(right: Option<Expression>) -> (r: Jump)
        ensures
            match right {
                Some(e) => r matches Jump::Return(Some(b)) && *b == e,
                None => r matches Jump::Return(o) && o is None,
            },
    {
        match right {
            Some(e) => Jump::Return(Some(Box::new(e))),
            None => Jump::Return(None),
        }
    }

    pub fn new_break(right: Option<Expression>) -> (r: Jump)
        ensures
            match right {
                Some(e) => r matches Jump::Break(Some(b)) && *b == e,
                None => r matches Jump::Break(o) && o is None,
            },
    {
        match right {
            Some(e) => Jump::Break(Some(Box::new(e))),
            None => Jump::Break(None),
        }
    }
}

/// A `let` statement: the declared variable and its optional initializer.
#[derive(Debug, PartialEq, Eq)]
pub struct VariableDeclaration {
    pub variable: Variable,
    pub initializer: Option<Expression>,
}

impl VariableDeclaration {
    pub fn new(variable: Variable, initializer: Option<Expression>) -> (r: VariableDeclaration)
        ensures
            r.variable == variable,
            r.initializer == initializer,
    {
        VariableDeclaration { variable, initializer }
    }
}

/// An assignment statement: target and value.
#[derive(Debug, PartialEq, Eq)]
pub struct Assignment {
    pub left: Expression,
    pub right: Expression,
}

impl Assignment {
    pub fn new(left: Expression, right: Expression) -> (r: Assignment)
        ensures
            r.left == left,
            r.right == right,
    {
        Assignment { left, right }
    }
}

} // verus!
