//! Mathematical models of the intermediate representation.
//!
//! A model replaces `String` by `Seq<char>` and `Vec` by `Seq`, so that two values with the
//! same model are the same program text. `x@` is the model of `x`.

use super::{
    AssignTarget, BinaryOp, ClassMethod, Constant, Expression, FunctionId, Number, ObjectProperty,
    PropertyKey, Statement, UnaryOp, Value, VarKind,
};
use vstd::prelude::*;

verus! {

/// The mathematical model of a [`Constant`].
#[verifier::ext_equal]
#[allow(inconsistent_fields)]
pub enum Const {
    Undefined,
    Null,
    Bool(bool),
    Integer(i32),
    Number(Num),
    String(Seq<char>),
    BigInt(Seq<char>),
}

/// The mathematical model of a [`Value`].
#[verifier::ext_equal]
#[allow(inconsistent_fields)]
pub enum Val {
    Register(u32),
    Parameter(u32),
    Variable(Seq<char>),
    ClosureVar { depth: u32, slot: u32 },
    Constant(Const),
    Global,
    This,
    NewTarget,
    Super,
}

/// The mathematical model of an [`Expression`].
#[verifier::ext_equal]
#[allow(inconsistent_fields)]
pub enum Expr {
    Value(Val),
    Binary { op: BinaryOp, left: Box<Expr>, right: Box<Expr> },
    Unary { op: UnaryOp, operand: Box<Expr> },
    Conditional { condition: Box<Expr>, then_expr: Box<Expr>, else_expr: Box<Expr> },
    Member { object: Box<Expr>, property: Key, optional: bool },
    Call { callee: Box<Expr>, arguments: Seq<Expr> },
    New { callee: Box<Expr>, arguments: Seq<Expr> },
    Array { elements: Seq<Option<Expr>> },
    Object { properties: Seq<Prop> },
    Function {
        id: FunctionId,
        name: Option<Seq<char>>,
        is_arrow: bool,
        is_async: bool,
        is_generator: bool,
    },
    Assignment { target: Box<Expr>, value: Box<Expr> },
    Spread(Box<Expr>),
    TemplateLiteral { quasis: Seq<Seq<char>>, expressions: Seq<Expr> },
    RegExp { pattern: Seq<char>, flags: Seq<char> },
    Yield { value: Box<Expr>, delegate: bool },
    Await(Box<Expr>),
    JSXElement { tag: Seq<char>, attributes: Seq<(Seq<char>, Expr)>, children: Seq<Expr> },
    Unknown { opcode: Seq<char>, operands: Seq<Seq<char>> },
}

/// The mathematical model of a [`PropertyKey`].
#[verifier::ext_equal]
#[allow(inconsistent_fields)]
pub enum Key {
    Ident(Seq<char>),
    String(Seq<char>),
    Index(i64),
    Computed(Box<Expr>),
}

/// The mathematical model of an [`AssignTarget`].
#[verifier::ext_equal]
#[allow(inconsistent_fields)]
pub enum Target {
    Register(u32),
    Variable(Seq<char>),
    Member { object: Expr, property: Seq<char> },
    Index { object: Expr, key: Expr },
    DestructuringArray(Seq<Option<(Target, Option<Expr>)>>),
    DestructuringArrayRest { elements: Seq<Option<(Target, Option<Expr>)>>, rest: Box<Target> },
    DestructuringObject(Seq<(Seq<char>, Target, Option<Expr>)>),
    DestructuringObjectRest {
        properties: Seq<(Seq<char>, Target, Option<Expr>)>,
        rest: Box<Target>,
    },
}

/// The mathematical model of a [`Statement`].
#[verifier::ext_equal]
#[allow(inconsistent_fields)]
pub enum Stmt {
    Expr(Expr),
    Let { name: Seq<char>, value: Expr, kind: VarKind },
    Assign { target: Target, value: Expr },
    Return(Option<Expr>),
    Throw(Expr),
    If { condition: Expr, then_body: Seq<Stmt>, else_body: Seq<Stmt> },
    While { condition: Expr, body: Seq<Stmt> },
    DoWhile { body: Seq<Stmt>, condition: Expr },
    For {
        init: Option<Box<Stmt>>,
        condition: Option<Expr>,
        update: Option<Box<Stmt>>,
        body: Seq<Stmt>,
    },
    ForIn { variable: Seq<char>, object: Expr, body: Seq<Stmt> },
    ForOf { variable: Seq<char>, iterable: Expr, body: Seq<Stmt> },
    Block(Seq<Stmt>),
    TryCatch {
        try_body: Seq<Stmt>,
        catch_param: Option<Seq<char>>,
        catch_body: Seq<Stmt>,
        finally_body: Seq<Stmt>,
    },
    Switch { discriminant: Expr, cases: Seq<(Expr, Seq<Stmt>)>, default: Option<Seq<Stmt>> },
    Class {
        name: Seq<char>,
        super_class: Option<Expr>,
        constructor: Option<FunctionId>,
        methods: Seq<Method>,
    },
    Comment(Seq<char>),
    Break(Option<Seq<char>>),
    Continue(Option<Seq<char>>),
}

/// The mathematical model of a [`Number`].
#[verifier::ext_equal]
pub struct Num {
    pub text: Seq<char>,
    pub integral: Option<i64>,
}

/// The mathematical model of an [`ObjectProperty`].
#[verifier::ext_equal]
pub struct Prop {
    pub key: Key,
    pub value: Expr,
}

/// The mathematical model of a [`ClassMethod`].
#[verifier::ext_equal]
pub struct Method {
    pub name: Seq<char>,
    pub function: FunctionId,
    pub is_static: bool,
}

impl Constant {
    pub open spec fn view(&self) -> Const
        decreases self,
    {
        match self {
            Constant::Undefined => Const::Undefined,
            Constant::Null => Const::Null,
            Constant::Bool(x) => Const::Bool(*x),
            Constant::Integer(x) => Const::Integer(*x),
            Constant::Number(x) => Const::Number(x@),
            Constant::String(x) => Const::String(x@),
            Constant::BigInt(x) => Const::BigInt(x@),
        }
    }
}

impl Value {
    pub open spec fn view(&self) -> Val
        decreases self,
    {
        match self {
            Value::Register(x) => Val::Register(*x),
            Value::Parameter(x) => Val::Parameter(*x),
            Value::Variable(x) => Val::Variable(x@),
            Value::ClosureVar { depth, slot } => Val::ClosureVar { depth: *depth, slot: *slot },
            Value::Constant(x) => Val::Constant(x@),
            Value::Global => Val::Global,
            Value::This => Val::This,
            Value::NewTarget => Val::NewTarget,
            Value::Super => Val::Super,
        }
    }
}

impl Expression {
    pub open spec fn view(&self) -> Expr
        decreases self,
    {
        match self {
            Expression::Value(x) => Expr::Value(x@),
            Expression::Binary { op, left, right } => Expr::Binary {
                op: *op,
                left: Box::new(left@),
                right: Box::new(right@),
            },
            Expression::Unary { op, operand } => Expr::Unary {
                op: *op,
                operand: Box::new(operand@),
            },
            Expression::Conditional { condition, then_expr, else_expr } => Expr::Conditional {
                condition: Box::new(condition@),
                then_expr: Box::new(then_expr@),
                else_expr: Box::new(else_expr@),
            },
            Expression::Member { object, property, optional } => Expr::Member {
                object: Box::new(object@),
                property: property@,
                optional: *optional,
            },
            Expression::Call { callee, arguments } => Expr::Call {
                callee: Box::new(callee@),
                arguments: exprs(arguments@),
            },
            Expression::New { callee, arguments } => Expr::New {
                callee: Box::new(callee@),
                arguments: exprs(arguments@),
            },
            Expression::Array { elements } => Expr::Array { elements: opt_exprs(elements@) },
            Expression::Object { properties } => Expr::Object { properties: props(properties@) },
            Expression::Function { id, name, is_arrow, is_async, is_generator } => Expr::Function {
                id: *id,
                name: opt_text(*name),
                is_arrow: *is_arrow,
                is_async: *is_async,
                is_generator: *is_generator,
            },
            Expression::Assignment { target, value } => Expr::Assignment {
                target: Box::new(target@),
                value: Box::new(value@),
            },
            Expression::Spread(x) => Expr::Spread(Box::new(x@)),
            Expression::TemplateLiteral { quasis, expressions } => Expr::TemplateLiteral {
                quasis: texts(quasis@),
                expressions: exprs(expressions@),
            },
            Expression::RegExp { pattern, flags } => Expr::RegExp {
                pattern: pattern@,
                flags: flags@,
            },
            Expression::Yield { value, delegate } => Expr::Yield {
                value: Box::new(value@),
                delegate: *delegate,
            },
            Expression::Await(x) => Expr::Await(Box::new(x@)),
            Expression::JSXElement { tag, attributes, children } => Expr::JSXElement {
                tag: tag@,
                attributes: attrs(attributes@),
                children: exprs(children@),
            },
            Expression::Unknown { opcode, operands } => Expr::Unknown {
                opcode: opcode@,
                operands: texts(operands@),
            },
        }
    }
}

impl PropertyKey {
    pub open spec fn view(&self) -> Key
        decreases self,
    {
        match self {
            PropertyKey::Ident(x) => Key::Ident(x@),
            PropertyKey::String(x) => Key::String(x@),
            PropertyKey::Index(x) => Key::Index(*x),
            PropertyKey::Computed(x) => Key::Computed(Box::new(x@)),
        }
    }
}

impl AssignTarget {
    pub open spec fn view(&self) -> Target
        decreases self,
    {
        match self {
            AssignTarget::Register(x) => Target::Register(*x),
            AssignTarget::Variable(x) => Target::Variable(x@),
            AssignTarget::Member { object, property } => Target::Member {
                object: object@,
                property: property@,
            },
            AssignTarget::Index { object, key } => Target::Index { object: object@, key: key@ },
            AssignTarget::DestructuringArray(x) => Target::DestructuringArray(slots(x@)),
            AssignTarget::DestructuringArrayRest { elements, rest } => Target::DestructuringArrayRest {
                elements: slots(elements@),
                rest: Box::new(rest@),
            },
            AssignTarget::DestructuringObject(x) => Target::DestructuringObject(fields(x@)),
            AssignTarget::DestructuringObjectRest { properties, rest } => Target::DestructuringObjectRest {
                properties: fields(properties@),
                rest: Box::new(rest@),
            },
        }
    }
}

impl Statement {
    pub open spec fn view(&self) -> Stmt
        decreases self,
    {
        match self {
            Statement::Expr(x) => Stmt::Expr(x@),
            Statement::Let { name, value, kind } => Stmt::Let {
                name: name@,
                value: value@,
                kind: *kind,
            },
            Statement::Assign { target, value } => Stmt::Assign { target: target@, value: value@ },
            Statement::Return(x) => Stmt::Return(opt_expr(*x)),
            Statement::Throw(x) => Stmt::Throw(x@),
            Statement::If { condition, then_body, else_body } => Stmt::If {
                condition: condition@,
                then_body: stmts(then_body@),
                else_body: stmts(else_body@),
            },
            Statement::While { condition, body } => Stmt::While {
                condition: condition@,
                body: stmts(body@),
            },
            Statement::DoWhile { body, condition } => Stmt::DoWhile {
                body: stmts(body@),
                condition: condition@,
            },
            Statement::For { init, condition, update, body } => Stmt::For {
                init: opt_stmt(*init),
                condition: opt_expr(*condition),
                update: opt_stmt(*update),
                body: stmts(body@),
            },
            Statement::ForIn { variable, object, body } => Stmt::ForIn {
                variable: variable@,
                object: object@,
                body: stmts(body@),
            },
            Statement::ForOf { variable, iterable, body } => Stmt::ForOf {
                variable: variable@,
                iterable: iterable@,
                body: stmts(body@),
            },
            Statement::Block(x) => Stmt::Block(stmts(x@)),
            Statement::TryCatch { try_body, catch_param, catch_body, finally_body } => Stmt::TryCatch {
                try_body: stmts(try_body@),
                catch_param: opt_text(*catch_param),
                catch_body: stmts(catch_body@),
                finally_body: stmts(finally_body@),
            },
            Statement::Switch { discriminant, cases, default } => Stmt::Switch {
                discriminant: discriminant@,
                cases: case_arms(cases@),
                default: opt_stmts(*default),
            },
            Statement::Class { name, super_class, constructor, methods } => Stmt::Class {
                name: name@,
                super_class: opt_expr(*super_class),
                constructor: *constructor,
                methods: class_methods(methods@),
            },
            Statement::Comment(x) => Stmt::Comment(x@),
            Statement::Break(x) => Stmt::Break(opt_text(*x)),
            Statement::Continue(x) => Stmt::Continue(opt_text(*x)),
        }
    }
}

impl Number {
    pub open spec fn view(&self) -> Num
        decreases self,
    {
        Num { text: self.text@, integral: self.integral }
    }
}

impl ObjectProperty {
    pub open spec fn view(&self) -> Prop
        decreases self,
    {
        Prop { key: self.key@, value: self.value@ }
    }
}

impl ClassMethod {
    pub open spec fn view(&self) -> Method
        decreases self,
    {
        Method { name: self.name@, function: self.function, is_static: self.is_static }
    }
}

/// The texts of a list of strings.
pub open spec fn texts(s: Seq<String>) -> Seq<Seq<char>>
    decreases s,
{
    Seq::new(s.len(), |i: int| if 0 <= i < s.len() { s[i]@ } else { arbitrary() })
}

/// The text of an optional string.
pub open spec fn opt_text(o: Option<String>) -> Option<Seq<char>>
    decreases o,
{
    match o {
        Some(x) => Some(x@),
        None => None,
    }
}

/// The model of an optional expression.
pub open spec fn opt_expr(o: Option<Expression>) -> Option<Expr>
    decreases o,
{
    match o {
        Some(x) => Some(x@),
        None => None,
    }
}

/// The models of a list of expressions.
pub open spec fn exprs(s: Seq<Expression>) -> Seq<Expr>
    decreases s,
{
    Seq::new(s.len(), |i: int| if 0 <= i < s.len() { s[i]@ } else { arbitrary() })
}

/// The models of array elements, holes included.
pub open spec fn opt_exprs(s: Seq<Option<Expression>>) -> Seq<Option<Expr>>
    decreases s,
{
    Seq::new(s.len(), |i: int| if 0 <= i < s.len() { opt_expr(s[i]) } else { arbitrary() })
}

/// The models of a list of object properties.
pub open spec fn props(s: Seq<ObjectProperty>) -> Seq<Prop>
    decreases s,
{
    Seq::new(s.len(), |i: int| if 0 <= i < s.len() { s[i]@ } else { arbitrary() })
}

/// The model of one named attribute.
pub open spec fn attr(a: (String, Expression)) -> (Seq<char>, Expr)
    decreases a,
{
    (a.0@, a.1@)
}

/// The models of a list of named attributes.
pub open spec fn attrs(s: Seq<(String, Expression)>) -> Seq<(Seq<char>, Expr)>
    decreases s,
{
    Seq::new(s.len(), |i: int| if 0 <= i < s.len() { attr(s[i]) } else { arbitrary() })
}

/// The model of one element of an array pattern; a hole is `None`.
pub open spec fn slot(o: Option<(AssignTarget, Option<Expression>)>) -> Option<(Target, Option<Expr>)>
    decreases o,
{
    match o {
        Some(p) => Some((p.0@, opt_expr(p.1))),
        None => None,
    }
}

/// The models of the elements of an array pattern.
pub open spec fn slots(s: Seq<Option<(AssignTarget, Option<Expression>)>>) -> Seq<Option<(Target, Option<Expr>)>>
    decreases s,
{
    Seq::new(s.len(), |i: int| if 0 <= i < s.len() { slot(s[i]) } else { arbitrary() })
}

/// The model of one field of an object pattern.
pub open spec fn field(f: (String, AssignTarget, Option<Expression>)) -> (Seq<char>, Target, Option<Expr>)
    decreases f,
{
    (f.0@, f.1@, opt_expr(f.2))
}

/// The models of the fields of an object pattern.
pub open spec fn fields(s: Seq<(String, AssignTarget, Option<Expression>)>) -> Seq<(Seq<char>, Target, Option<Expr>)>
    decreases s,
{
    Seq::new(s.len(), |i: int| if 0 <= i < s.len() { field(s[i]) } else { arbitrary() })
}

/// The models of a list of statements.
pub open spec fn stmts(s: Seq<Statement>) -> Seq<Stmt>
    decreases s,
{
    Seq::new(s.len(), |i: int| if 0 <= i < s.len() { s[i]@ } else { arbitrary() })
}

/// The model of an optional boxed statement.
pub open spec fn opt_stmt(o: Option<Box<Statement>>) -> Option<Box<Stmt>>
    decreases o,
{
    match o {
        Some(x) => Some(Box::new(x@)),
        None => None,
    }
}

/// The model of an optional statement list.
pub open spec fn opt_stmts(o: Option<Vec<Statement>>) -> Option<Seq<Stmt>>
    decreases o,
{
    match o {
        Some(x) => Some(stmts(x@)),
        None => None,
    }
}

/// The model of one arm of a `switch`.
pub open spec fn case_arm(c: (Expression, Vec<Statement>)) -> (Expr, Seq<Stmt>)
    decreases c,
{
    (c.0@, stmts(c.1@))
}

/// The models of the arms of a `switch`.
pub open spec fn case_arms(s: Seq<(Expression, Vec<Statement>)>) -> Seq<(Expr, Seq<Stmt>)>
    decreases s,
{
    Seq::new(s.len(), |i: int| if 0 <= i < s.len() { case_arm(s[i]) } else { arbitrary() })
}

/// The models of the methods of a class.
pub open spec fn class_methods(s: Seq<ClassMethod>) -> Seq<Method>
    decreases s,
{
    Seq::new(s.len(), |i: int| if 0 <= i < s.len() { s[i]@ } else { arbitrary() })
}

} // verus!
