//! The intermediate representation that every pass reads and rewrites.
//!
//! The executable types stand here. `model` gives each of them a mathematical model, the
//! value that contracts speak of; `cloning` and `equality` copy and compare values by it.

pub mod bindings;
pub mod bodies;
pub mod cfg;
pub mod cloning;
pub mod constructors;
pub mod display;
pub mod effect_laws;
pub mod effects;
pub mod equality;
pub mod leaves;
pub mod meaning;
pub mod model;
pub mod naming;
pub mod naming_laws;
pub mod nested;
pub mod occurs;
pub mod occurs_laws;
pub mod renaming;
pub mod renaming_laws;
pub mod visit;
pub mod weight;

use vstd::prelude::*;

verus! {

/// The index of a function in the bytecode file.
#[derive(Debug, Clone, Copy, PartialEq, Eq, Structural)]
pub struct FunctionId(pub u32);

/// The keyword of a declaration.
#[derive(Debug, Clone, Copy, PartialEq, Eq, Structural)]
pub enum VarKind {
    Let,
    Const,
    Var,
}

/// A binary operator.
#[derive(Debug, Clone, Copy, PartialEq, Eq, Structural)]
pub enum BinaryOp {
    Add,
    Sub,
    Mul,
    Div,
    Mod,
    Exp,
    BitAnd,
    BitOr,
    BitXor,
    Shl,
    Shr,
    UShr,
    Eq,
    Neq,
    StrictEq,
    StrictNeq,
    Lt,
    Le,
    Gt,
    Ge,
    LogicalAnd,
    LogicalOr,
    NullishCoalescing,
    In,
    InstanceOf,
}

/// A unary operator.
#[derive(Debug, Clone, Copy, PartialEq, Eq, Structural)]
pub enum UnaryOp {
    Not,
    Neg,
    Plus,
    BitNot,
    TypeOf,
    Void,
    Delete,
}

/// A literal constant.
#[derive(Debug, PartialEq)]
#[allow(inconsistent_fields)]
pub enum Constant {
    Undefined,
    Null,
    Bool(bool),
    Integer(i32),
    Number(Number),
    String(String),
    BigInt(String),
}

/// A leaf operand.
#[derive(Debug, PartialEq)]
#[allow(inconsistent_fields)]
pub enum Value {
    Register(u32),
    Parameter(u32),
    Variable(String),
    ClosureVar { depth: u32, slot: u32 },
    Constant(Constant),
    Global,
    This,
    NewTarget,
    Super,
}

/// An expression of the decompiled program.
#[derive(Debug, PartialEq)]
#[allow(inconsistent_fields)]
pub enum Expression {
    Value(Value),
    Binary { op: BinaryOp, left: Box<Expression>, right: Box<Expression> },
    Unary { op: UnaryOp, operand: Box<Expression> },
    Conditional {
        condition: Box<Expression>,
        then_expr: Box<Expression>,
        else_expr: Box<Expression>,
    },
    Member { object: Box<Expression>, property: PropertyKey, optional: bool },
    Call { callee: Box<Expression>, arguments: Vec<Expression> },
    New { callee: Box<Expression>, arguments: Vec<Expression> },
    Array { elements: Vec<Option<Expression>> },
    Object { properties: Vec<ObjectProperty> },
    Function {
        id: FunctionId,
        name: Option<String>,
        is_arrow: bool,
        is_async: bool,
        is_generator: bool,
    },
    Assignment { target: Box<Expression>, value: Box<Expression> },
    Spread(Box<Expression>),
    TemplateLiteral { quasis: Vec<String>, expressions: Vec<Expression> },
    RegExp { pattern: String, flags: String },
    Yield { value: Box<Expression>, delegate: bool },
    Await(Box<Expression>),
    JSXElement { tag: String, attributes: Vec<(String, Expression)>, children: Vec<Expression> },
    Unknown { opcode: String, operands: Vec<String> },
}

/// The key of a member access or of an object property.
#[derive(Debug, PartialEq)]
#[allow(inconsistent_fields)]
pub enum PropertyKey {
    Ident(String),
    String(String),
    Index(i64),
    Computed(Box<Expression>),
}

/// The left-hand side of an assignment statement.
#[derive(Debug, PartialEq)]
#[allow(inconsistent_fields)]
pub enum AssignTarget {
    Register(u32),
    Variable(String),
    Member { object: Expression, property: String },
    Index { object: Expression, key: Expression },
    DestructuringArray(Vec<Option<(AssignTarget, Option<Expression>)>>),
    DestructuringArrayRest {
        elements: Vec<Option<(AssignTarget, Option<Expression>)>>,
        rest: Box<AssignTarget>,
    },
    DestructuringObject(Vec<(String, AssignTarget, Option<Expression>)>),
    DestructuringObjectRest {
        properties: Vec<(String, AssignTarget, Option<Expression>)>,
        rest: Box<AssignTarget>,
    },
}

/// A statement of the decompiled program.
#[derive(Debug, PartialEq)]
#[allow(inconsistent_fields)]
pub enum Statement {
    Expr(Expression),
    Let { name: String, value: Expression, kind: VarKind },
    Assign { target: AssignTarget, value: Expression },
    Return(Option<Expression>),
    Throw(Expression),
    If { condition: Expression, then_body: Vec<Statement>, else_body: Vec<Statement> },
    While { condition: Expression, body: Vec<Statement> },
    DoWhile { body: Vec<Statement>, condition: Expression },
    For {
        init: Option<Box<Statement>>,
        condition: Option<Expression>,
        update: Option<Box<Statement>>,
        body: Vec<Statement>,
    },
    ForIn { variable: String, object: Expression, body: Vec<Statement> },
    ForOf { variable: String, iterable: Expression, body: Vec<Statement> },
    Block(Vec<Statement>),
    TryCatch {
        try_body: Vec<Statement>,
        catch_param: Option<String>,
        catch_body: Vec<Statement>,
        finally_body: Vec<Statement>,
    },
    Switch {
        discriminant: Expression,
        cases: Vec<(Expression, Vec<Statement>)>,
        default: Option<Vec<Statement>>,
    },
    Class {
        name: String,
        super_class: Option<Expression>,
        constructor: Option<FunctionId>,
        methods: Vec<ClassMethod>,
    },
    Comment(String),
    Break(Option<String>),
    Continue(Option<String>),
}

/// A floating-point literal: its source text, and its value where that is a whole number.
#[derive(Debug, PartialEq)]
pub struct Number {
    pub text: String,
    pub integral: Option<i64>,
}

/// One `key: value` entry of an object literal.
#[derive(Debug, PartialEq)]
pub struct ObjectProperty {
    pub key: PropertyKey,
    pub value: Expression,
}

/// A method of a class.
#[derive(Debug, PartialEq)]
pub struct ClassMethod {
    pub name: String,
    pub function: FunctionId,
    pub is_static: bool,
}

} // verus!
