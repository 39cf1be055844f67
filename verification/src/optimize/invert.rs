//! Turns conditionals with nothing to do when they hold around.

use crate::ir::cloning::{clone_opt_expr, clone_opt_stmt, clone_opt_text};
use crate::ir::model;
use crate::ir::model::{Expr, Stmt};
use crate::ir::{Expression, Statement, UnaryOp};
use vstd::prelude::*;

verus! {

/// The condition that holds where another does not.
pub open spec fn negation(e: Expr) -> Expr {
    match e {
        Expr::Unary { op: UnaryOp::Not, operand } => *operand,
        _ => Expr::Unary { op: UnaryOp::Not, operand: Box::new(e) },
    }
}

/// A conditional that only does something when it does not hold, turned around.
pub open spec fn inverted_if(s: Stmt) -> Stmt {
    match s {
        Stmt::If { condition, then_body, else_body } => if then_body.len() == 0 && else_body.len()
            > 0 {
            Stmt::If {
                condition: negation(condition),
                then_body: else_body,
                else_body: Seq::empty(),
            }
        } else {
            s
        },
        _ => s,
    }
}

/// The list with its conditionals turned around, nested lists included.
pub open spec fn inverted(s: Seq<Stmt>) -> Seq<Stmt>
    decreases s, 1nat,
{
    Seq::new(
        s.len(),
        |i: int|
            if 0 <= i < s.len() {
                inverted_if(inverted_nested(s[i]))
            } else {
                arbitrary()
            },
    )
}

pub open spec fn inverted_nested(s: Stmt) -> Stmt
    decreases s, 0nat,
{
    match s {
        Stmt::If { condition, then_body, else_body } => Stmt::If {
            condition,
            then_body: inverted(then_body),
            else_body: inverted(else_body),
        },
        Stmt::While { condition, body } => Stmt::While {
            condition,
            body: inverted(body),
        },
        Stmt::DoWhile { body, condition } => Stmt::DoWhile {
            body: inverted(body),
            condition,
        },
        Stmt::For { init, condition, update, body } => Stmt::For {
            init,
            condition,
            update,
            body: inverted(body),
        },
        Stmt::ForIn { variable, object, body } => Stmt::ForIn {
            variable,
            object,
            body: inverted(body),
        },
        Stmt::ForOf { variable, iterable, body } => Stmt::ForOf {
            variable,
            iterable,
            body: inverted(body),
        },
        Stmt::Block(body) => Stmt::Block(inverted(body)),
        Stmt::TryCatch { try_body, catch_param, catch_body, finally_body } => Stmt::TryCatch {
            try_body: inverted(try_body),
            catch_param,
            catch_body: inverted(catch_body),
            finally_body: inverted(finally_body),
        },
        Stmt::Switch { discriminant, cases, default } => Stmt::Switch {
            discriminant,
            cases: inverted_nested_cases(cases),
            default: inverted_nested_default(default),
        },
        _ => s,
    }
}

pub open spec fn inverted_nested_case(c: (Expr, Seq<Stmt>)) -> (Expr, Seq<Stmt>)
    decreases c, 0nat,
{
    (c.0, inverted(c.1))
}

pub open spec fn inverted_nested_cases(s: Seq<(Expr, Seq<Stmt>)>) -> Seq<(Expr, Seq<Stmt>)>
    decreases s, 0nat,
{
    Seq::new(
        s.len(),
        |i: int|
            if 0 <= i < s.len() {
                inverted_nested_case(s[i])
            } else {
                arbitrary()
            },
    )
}

pub open spec fn inverted_nested_default(d: Option<Seq<Stmt>>) -> Option<Seq<Stmt>>
    decreases d, 0nat,
{
    match d {
        Some(b) => Some(inverted(b)),
        None => None,
    }
}

fn invert_if(s: Statement) -> (r: Statement)
    ensures
        r@ == inverted_if(s@),
{
    match s {
        Statement::If { condition, then_body, else_body } => {
            assert(model::stmts(then_body@).len() == then_body@.len());
            assert(model::stmts(else_body@).len() == else_body@.len());
            if then_body.len() == 0 && else_body.len() > 0 {
                let none: Vec<Statement> = Vec::new();
                assert(model::stmts(none@) =~= Seq::empty());
                let c = match condition {
                    Expression::Unary { op: UnaryOp::Not, operand } => *operand,
                    other => Expression::Unary { op: UnaryOp::Not, operand: Box::new(other) },
                };
                Statement::If { condition: c, then_body: else_body, else_body: none }
            } else {
                Statement::If { condition, then_body, else_body }
            }
        },
        other => other,
    }
}

fn invert_list(v: &Vec<Statement>) -> (r: Vec<Statement>)
    ensures
        model::stmts(r@) == inverted(model::stmts(v@)),
    decreases v, 1nat,
{
    let mut out: Vec<Statement> = Vec::new();
    let mut i: usize = 0;
    while i < v.len()
        invariant
            i <= v.len(),
            out.len() == i,
            forall|k: int|
                0 <= k < i ==> (#[trigger] out@[k])@ == inverted_if(inverted_nested(v@[k]@)),
        decreases v.len() - i,
    {
        let x = invert_if(invert_nested(&v[i]));
        out.push(x);
        i += 1;
    }
    assert(model::stmts(out@) =~= inverted(model::stmts(v@)));
    out
}

fn invert_nested(s: &Statement) -> (r: Statement)
    ensures
        r@ == inverted_nested(s@),
    decreases s, 0nat,
{
    match s {
        Statement::If { condition, then_body, else_body } => Statement::If {
            condition: condition.clone(),
            then_body: invert_list(then_body),
            else_body: invert_list(else_body),
        },
        Statement::While { condition, body } => Statement::While {
            condition: condition.clone(),
            body: invert_list(body),
        },
        Statement::DoWhile { body, condition } => Statement::DoWhile {
            body: invert_list(body),
            condition: condition.clone(),
        },
        Statement::For { init, condition, update, body } => Statement::For {
            init: clone_opt_stmt(init),
            condition: clone_opt_expr(condition),
            update: clone_opt_stmt(update),
            body: invert_list(body),
        },
        Statement::ForIn { variable, object, body } => Statement::ForIn {
            variable: variable.clone(),
            object: object.clone(),
            body: invert_list(body),
        },
        Statement::ForOf { variable, iterable, body } => Statement::ForOf {
            variable: variable.clone(),
            iterable: iterable.clone(),
            body: invert_list(body),
        },
        Statement::Block(body) => Statement::Block(invert_list(body)),
        Statement::TryCatch { try_body, catch_param, catch_body, finally_body } => Statement::TryCatch {
            try_body: invert_list(try_body),
            catch_param: clone_opt_text(catch_param),
            catch_body: invert_list(catch_body),
            finally_body: invert_list(finally_body),
        },
        Statement::Switch { discriminant, cases, default } => Statement::Switch {
            discriminant: discriminant.clone(),
            cases: invert_nested_cases(cases),
            default: invert_nested_default(default),
        },
        _ => s.clone(),
    }
}

fn invert_nested_cases(v: &Vec<(Expression, Vec<Statement>)>) -> (r: Vec<(Expression, Vec<Statement>)>)
    ensures
        model::case_arms(r@) == inverted_nested_cases(model::case_arms(v@)),
    decreases v, 0nat,
{
    let mut out: Vec<(Expression, Vec<Statement>)> = Vec::new();
    let mut i: usize = 0;
    while i < v.len()
        invariant
            i <= v.len(),
            out.len() == i,
            forall|k: int|
                0 <= k < i ==> model::case_arm(#[trigger] out@[k]) == inverted_nested_case(
                    model::case_arm(v@[k]),
                ),
        decreases v.len() - i,
    {
        out.push((v[i].0.clone(), invert_list(&v[i].1)));
        i += 1;
    }
    assert(model::case_arms(out@) =~= inverted_nested_cases(model::case_arms(v@)));
    out
}

fn invert_nested_default(d: &Option<Vec<Statement>>) -> (r: Option<Vec<Statement>>)
    ensures
        model::opt_stmts(r) == inverted_nested_default(model::opt_stmts(*d)),
    decreases d, 0nat,
{
    match d {
        Some(b) => Some(invert_list(b)),
        None => None,
    }
}

/// Turns conditionals around whose first branch is empty.
pub fn invert_empty_ifs(stmts: Vec<Statement>) -> (r: Vec<Statement>)
    ensures
        model::stmts(r@) == inverted(model::stmts(stmts@)),
{
    invert_list(&stmts)
}

} // verus!
