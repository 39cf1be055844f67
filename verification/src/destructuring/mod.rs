//! Recovers destructuring patterns.

pub mod babel;
pub mod laws;
pub mod transformer;

use crate::ir::cloning::{clone_opt_expr, clone_opt_text};
use crate::ir::model;
use crate::ir::model::{Expr, Stmt};
use crate::ir::{Expression, Statement};
use vstd::prelude::*;

verus! {

/// The list with the patterns in it recovered, nested lists first.
pub open spec fn detected(s: Seq<Stmt>) -> Seq<Stmt>
    decreases s, 2nat,
{
    transformer::patterns_from(detected_list(s), 0)
}

pub open spec fn detected_list(s: Seq<Stmt>) -> Seq<Stmt>
    decreases s, 1nat,
{
    Seq::new(
        s.len(),
        |i: int|
            if 0 <= i < s.len() {
                detected_nested(s[i])
            } else {
                arbitrary()
            },
    )
}

pub open spec fn detected_opt(o: Option<Box<Stmt>>) -> Option<Box<Stmt>>
    decreases o, 1nat,
{
    match o {
        Some(s) => Some(Box::new(detected_nested(*s))),
        None => None,
    }
}

/// The statement with the patterns in its nested lists recovered. The body of a `do` loop is left as it is.
pub open spec fn detected_nested(s: Stmt) -> Stmt
    decreases s, 0nat,
{
    match s {
        Stmt::If { condition, then_body, else_body } => Stmt::If {
            condition,
            then_body: detected(then_body),
            else_body: detected(else_body),
        },
        Stmt::While { condition, body } => Stmt::While {
            condition,
            body: detected(body),
        },
        Stmt::For { init, condition, update, body } => Stmt::For {
            init: detected_opt(init),
            condition,
            update: detected_opt(update),
            body: detected(body),
        },
        Stmt::ForIn { variable, object, body } => Stmt::ForIn {
            variable,
            object,
            body: detected(body),
        },
        Stmt::ForOf { variable, iterable, body } => Stmt::ForOf {
            variable,
            iterable,
            body: detected(body),
        },
        Stmt::Block(body) => Stmt::Block(detected(body)),
        Stmt::TryCatch { try_body, catch_param, catch_body, finally_body } => Stmt::TryCatch {
            try_body: detected(try_body),
            catch_param,
            catch_body: detected(catch_body),
            finally_body: detected(finally_body),
        },
        Stmt::Switch { discriminant, cases, default } => Stmt::Switch {
            discriminant,
            cases: detected_nested_cases(cases),
            default: detected_nested_default(default),
        },
        _ => s,
    }
}

pub open spec fn detected_nested_case(c: (Expr, Seq<Stmt>)) -> (Expr, Seq<Stmt>)
    decreases c, 0nat,
{
    (c.0, detected(c.1))
}

pub open spec fn detected_nested_cases(s: Seq<(Expr, Seq<Stmt>)>) -> Seq<(Expr, Seq<Stmt>)>
    decreases s, 0nat,
{
    Seq::new(
        s.len(),
        |i: int|
            if 0 <= i < s.len() {
                detected_nested_case(s[i])
            } else {
                arbitrary()
            },
    )
}

pub open spec fn detected_nested_default(d: Option<Seq<Stmt>>) -> Option<Seq<Stmt>>
    decreases d, 0nat,
{
    match d {
        Some(b) => Some(detected(b)),
        None => None,
    }
}

fn transform_opt(o: &Option<Box<Statement>>) -> (r: Option<Box<Statement>>)
    ensures
        model::opt_stmt(r) == detected_opt(model::opt_stmt(*o)),
    decreases o, 1nat,
{
    match o {
        Some(s) => Some(Box::new(transform_nested(s))),
        None => None,
    }
}

fn transform_nested(s: &Statement) -> (r: Statement)
    ensures
        r@ == detected_nested(s@),
    decreases s, 0nat,
{
    match s {
        Statement::If { condition, then_body, else_body } => Statement::If {
            condition: condition.clone(),
            then_body: detect_list(then_body),
            else_body: detect_list(else_body),
        },
        Statement::While { condition, body } => Statement::While {
            condition: condition.clone(),
            body: detect_list(body),
        },
        Statement::For { init, condition, update, body } => Statement::For {
            init: transform_opt(init),
            condition: clone_opt_expr(condition),
            update: transform_opt(update),
            body: detect_list(body),
        },
        Statement::ForIn { variable, object, body } => Statement::ForIn {
            variable: variable.clone(),
            object: object.clone(),
            body: detect_list(body),
        },
        Statement::ForOf { variable, iterable, body } => Statement::ForOf {
            variable: variable.clone(),
            iterable: iterable.clone(),
            body: detect_list(body),
        },
        Statement::Block(body) => Statement::Block(detect_list(body)),
        Statement::TryCatch { try_body, catch_param, catch_body, finally_body } => Statement::TryCatch {
            try_body: detect_list(try_body),
            catch_param: clone_opt_text(catch_param),
            catch_body: detect_list(catch_body),
            finally_body: detect_list(finally_body),
        },
        Statement::Switch { discriminant, cases, default } => Statement::Switch {
            discriminant: discriminant.clone(),
            cases: transform_nested_cases(cases),
            default: transform_nested_default(default),
        },
        _ => s.clone(),
    }
}

fn transform_nested_cases(v: &Vec<(Expression, Vec<Statement>)>) -> (r: Vec<(Expression, Vec<Statement>)>)
    ensures
        model::case_arms(r@) == detected_nested_cases(model::case_arms(v@)),
    decreases v, 0nat,
{
    let mut out: Vec<(Expression, Vec<Statement>)> = Vec::new();
    let mut i: usize = 0;
    while i < v.len()
        invariant
            i <= v.len(),
            out.len() == i,
            forall|k: int|
                0 <= k < i ==> model::case_arm(#[trigger] out@[k]) == detected_nested_case(
                    model::case_arm(v@[k]),
                ),
        decreases v.len() - i,
    {
        out.push((v[i].0.clone(), detect_list(&v[i].1)));
        i += 1;
    }
    assert(model::case_arms(out@) =~= detected_nested_cases(model::case_arms(v@)));
    out
}

fn transform_nested_default(d: &Option<Vec<Statement>>) -> (r: Option<Vec<Statement>>)
    ensures
        model::opt_stmts(r) == detected_nested_default(model::opt_stmts(*d)),
    decreases d, 0nat,
{
    match d {
        Some(b) => Some(detect_list(b)),
        None => None,
    }
}

fn detect_list(v: &Vec<Statement>) -> (r: Vec<Statement>)
    ensures
        model::stmts(r@) == detected(model::stmts(v@)),
    decreases v, 2nat,
{
    let mut out: Vec<Statement> = Vec::new();
    let mut i: usize = 0;
    while i < v.len()
        invariant
            i <= v.len(),
            out.len() == i,
            forall|k: int| 0 <= k < i ==> (#[trigger] out@[k])@ == detected_nested(v@[k]@),
        decreases v.len() - i,
    {
        let x = transform_nested(&v[i]);
        out.push(x);
        i += 1;
    }
    assert(model::stmts(out@) =~= detected_list(model::stmts(v@)));
    transformer::transform_destructuring(&mut out);
    out
}

/// Recovers object and array patterns from reads of properties and elements.
pub fn detect_destructuring(stmts: Vec<Statement>) -> (r: Vec<Statement>)
    ensures
        model::stmts(r@) == detected(model::stmts(stmts@)),
{
    detect_list(&stmts)
}

} // verus!
