//! Drops returns that nothing reaches.

use crate::ir::cloning::{clone_opt_expr, clone_opt_stmt, clone_opt_text};
use crate::ir::model;
use crate::ir::model::{Expr, Stmt};
use crate::ir::{Expression, Statement};
use vstd::prelude::*;

verus! {

/// The list with each run of returns as its first, nested lists included.
pub open spec fn merged(s: Seq<Stmt>) -> Seq<Stmt>
    decreases s, 1nat,
{
    if s.len() == 0 {
        s
    } else if s.len() > 1 && s.last() is Return && s[s.len() - 2] is Return {
        merged(s.drop_last())
    } else {
        merged(s.drop_last()).push(merged_nested(s.last()))
    }
}

pub open spec fn merged_nested(s: Stmt) -> Stmt
    decreases s, 0nat,
{
    match s {
        Stmt::If { condition, then_body, else_body } => Stmt::If {
            condition,
            then_body: merged(then_body),
            else_body: merged(else_body),
        },
        Stmt::While { condition, body } => Stmt::While {
            condition,
            body: merged(body),
        },
        Stmt::DoWhile { body, condition } => Stmt::DoWhile {
            body: merged(body),
            condition,
        },
        Stmt::For { init, condition, update, body } => Stmt::For {
            init,
            condition,
            update,
            body: merged(body),
        },
        Stmt::ForIn { variable, object, body } => Stmt::ForIn {
            variable,
            object,
            body: merged(body),
        },
        Stmt::ForOf { variable, iterable, body } => Stmt::ForOf {
            variable,
            iterable,
            body: merged(body),
        },
        Stmt::Block(body) => Stmt::Block(merged(body)),
        Stmt::TryCatch { try_body, catch_param, catch_body, finally_body } => Stmt::TryCatch {
            try_body: merged(try_body),
            catch_param,
            catch_body: merged(catch_body),
            finally_body: merged(finally_body),
        },
        Stmt::Switch { discriminant, cases, default } => Stmt::Switch {
            discriminant,
            cases: merged_nested_cases(cases),
            default: merged_nested_default(default),
        },
        _ => s,
    }
}

pub open spec fn merged_nested_case(c: (Expr, Seq<Stmt>)) -> (Expr, Seq<Stmt>)
    decreases c, 0nat,
{
    (c.0, merged(c.1))
}

pub open spec fn merged_nested_cases(s: Seq<(Expr, Seq<Stmt>)>) -> Seq<(Expr, Seq<Stmt>)>
    decreases s, 0nat,
{
    Seq::new(
        s.len(),
        |i: int|
            if 0 <= i < s.len() {
                merged_nested_case(s[i])
            } else {
                arbitrary()
            },
    )
}

pub open spec fn merged_nested_default(d: Option<Seq<Stmt>>) -> Option<Seq<Stmt>>
    decreases d, 0nat,
{
    match d {
        Some(b) => Some(merged(b)),
        None => None,
    }
}

fn is_return(s: &Statement) -> (r: bool)
    ensures
        r == (s@ is Return),
{
    match s {
        Statement::Return(_) => true,
        _ => false,
    }
}

fn merge_list(v: &Vec<Statement>) -> (r: Vec<Statement>)
    ensures
        model::stmts(r@) == merged(model::stmts(v@)),
    decreases v, 1nat,
{
    let ghost all = model::stmts(v@);
    let mut out: Vec<Statement> = Vec::new();
    let mut i: usize = 0;
    assert(model::stmts(out@) =~= all.take(0));
    while i < v.len()
        invariant
            i <= v.len(),
            all == model::stmts(v@),
            model::stmts(out@) == merged(all.take(i as int)),
        decreases v.len() - i,
    {
        let ghost next = all.take(i + 1);
        assert(next.drop_last() =~= all.take(i as int));
        assert(all[i as int] == v@[i as int]@);
        let mut again: bool = false;
        if i > 0 {
            assert(all[i - 1] == v@[i - 1]@);
            assert(next[next.len() - 2] == all[i - 1]);
            again = is_return(&v[i]) && is_return(&v[i - 1]);
        }
        if !again {
            let ghost before = model::stmts(out@);
            let x = merge_nested(&v[i]);
            let ghost y = x@;
            out.push(x);
            assert(model::stmts(out@) =~= before.push(y));
        }
        i += 1;
    }
    assert(all.take(all.len() as int) =~= all);
    out
}

fn merge_nested(s: &Statement) -> (r: Statement)
    ensures
        r@ == merged_nested(s@),
    decreases s, 0nat,
{
    match s {
        Statement::If { condition, then_body, else_body } => Statement::If {
            condition: condition.clone(),
            then_body: merge_list(then_body),
            else_body: merge_list(else_body),
        },
        Statement::While { condition, body } => Statement::While {
            condition: condition.clone(),
            body: merge_list(body),
        },
        Statement::DoWhile { body, condition } => Statement::DoWhile {
            body: merge_list(body),
            condition: condition.clone(),
        },
        Statement::For { init, condition, update, body } => Statement::For {
            init: clone_opt_stmt(init),
            condition: clone_opt_expr(condition),
            update: clone_opt_stmt(update),
            body: merge_list(body),
        },
        Statement::ForIn { variable, object, body } => Statement::ForIn {
            variable: variable.clone(),
            object: object.clone(),
            body: merge_list(body),
        },
        Statement::ForOf { variable, iterable, body } => Statement::ForOf {
            variable: variable.clone(),
            iterable: iterable.clone(),
            body: merge_list(body),
        },
        Statement::Block(body) => Statement::Block(merge_list(body)),
        Statement::TryCatch { try_body, catch_param, catch_body, finally_body } => Statement::TryCatch {
            try_body: merge_list(try_body),
            catch_param: clone_opt_text(catch_param),
            catch_body: merge_list(catch_body),
            finally_body: merge_list(finally_body),
        },
        Statement::Switch { discriminant, cases, default } => Statement::Switch {
            discriminant: discriminant.clone(),
            cases: merge_nested_cases(cases),
            default: merge_nested_default(default),
        },
        _ => s.clone(),
    }
}

fn merge_nested_cases(v: &Vec<(Expression, Vec<Statement>)>) -> (r: Vec<(Expression, Vec<Statement>)>)
    ensures
        model::case_arms(r@) == merged_nested_cases(model::case_arms(v@)),
    decreases v, 0nat,
{
    let mut out: Vec<(Expression, Vec<Statement>)> = Vec::new();
    let mut i: usize = 0;
    while i < v.len()
        invariant
            i <= v.len(),
            out.len() == i,
            forall|k: int|
                0 <= k < i ==> model::case_arm(#[trigger] out@[k]) == merged_nested_case(
                    model::case_arm(v@[k]),
                ),
        decreases v.len() - i,
    {
        out.push((v[i].0.clone(), merge_list(&v[i].1)));
        i += 1;
    }
    assert(model::case_arms(out@) =~= merged_nested_cases(model::case_arms(v@)));
    out
}

fn merge_nested_default(d: &Option<Vec<Statement>>) -> (r: Option<Vec<Statement>>)
    ensures
        model::opt_stmts(r) == merged_nested_default(model::opt_stmts(*d)),
    decreases d, 0nat,
{
    match d {
        Some(b) => Some(merge_list(b)),
        None => None,
    }
}

/// Keeps the first of returns that follow each other.
pub fn merge_sequential_returns(stmts: Vec<Statement>) -> (r: Vec<Statement>)
    ensures
        model::stmts(r@) == merged(model::stmts(stmts@)),
{
    merge_list(&stmts)
}

} // verus!
