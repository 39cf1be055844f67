//! Short ways to write expressions and statements.

use super::model;
use super::model::{Expr, Key, Stmt, Target, Val};
use super::{
    AssignTarget, BinaryOp, Constant, Expression, PropertyKey, Statement, UnaryOp, Value, VarKind,
};
use vstd::prelude::*;

verus! {

impl Expression {
    pub fn constant(c: Constant) -> (r: Expression)
        ensures
            r@ == Expr::Value(Val::Constant(c@)),
    {
        Expression::Value(Value::Constant(c))
    }

    pub fn register(n: u32) -> (r: Expression)
        ensures
            r@ == Expr::Value(Val::Register(n)),
    {
        Expression::Value(Value::Register(n))
    }

    pub fn call(callee: Expression, arguments: Vec<Expression>) -> (r: Expression)
        ensures
            r@ == (Expr::Call {
                callee: Box::new(callee@),
                arguments: model::exprs(arguments@),
            }),
    {
        Expression::Call { callee: Box::new(callee), arguments }
    }

    /// The property of an object, by its name.
    pub fn member(object: Expression, name: &str) -> (r: Expression)
        ensures
            r@ == (Expr::Member {
                object: Box::new(object@),
                property: Key::Ident(name@),
                optional: false,
            }),
    {
        let property = PropertyKey::Ident(name.to_owned());
        assert(property@ == Key::Ident(name@));
        Expression::Member { object: Box::new(object), property, optional: false }
    }

    pub fn binary(op: BinaryOp, left: Expression, right: Expression) -> (r: Expression)
        ensures
            r@ == (Expr::Binary { op, left: Box::new(left@), right: Box::new(right@) }),
    {
        Expression::Binary { op, left: Box::new(left), right: Box::new(right) }
    }

    pub fn unary(op: UnaryOp, operand: Expression) -> (r: Expression)
        ensures
            r@ == (Expr::Unary { op, operand: Box::new(operand@) }),
    {
        Expression::Unary { op, operand: Box::new(operand) }
    }
}

impl Statement {
    /// A `let` declaration.
    pub fn let_stmt(name: &str, value: Expression) -> (r: Statement)
        ensures
            r@ == (Stmt::Let { name: name@, value: value@, kind: VarKind::Let }),
    {
        Statement::Let { name: name.to_owned(), value, kind: VarKind::Let }
    }

    pub fn assign_reg(n: u32, value: Expression) -> (r: Statement)
        ensures
            r@ == (Stmt::Assign { target: Target::Register(n), value: value@ }),
    {
        Statement::Assign { target: AssignTarget::Register(n), value }
    }
}

} // verus!
