//! Removes statements that do nothing.

use crate::ir::bodies;
use crate::ir::cloning::{clone_opt_expr, clone_opt_stmt, clone_opt_text};
use crate::ir::model;
use crate::ir::model::{Expr, Stmt, Target, Val};
use crate::ir::{AssignTarget, Expression, Statement, Value};
use crate::text;
use vstd::prelude::*;

verus! {

/// Whether a statement gives a place the value that it has.
pub open spec fn self_assignment(s: Stmt) -> bool {
    match s {
        Stmt::Assign { target: Target::Variable(n), value } => value == Expr::Value(
            Val::Variable(n),
        ),
        Stmt::Assign { target: Target::Register(r), value } => value == Expr::Value(
            Val::Register(r),
        ),
        Stmt::Let { name, value, .. } => value == Expr::Value(Val::Variable(name)),
        _ => false,
    }
}

/// The statements without self-assignments, nested bodies included.
pub open spec fn cleaned(s: Seq<Stmt>) -> Seq<Stmt>
    decreases s,
{
    if s.len() == 0 {
        Seq::empty()
    } else if self_assignment(s.last()) {
        cleaned(s.drop_last())
    } else {
        cleaned(s.drop_last()).push(cleaned_nested(s.last()))
    }
}

pub open spec fn cleaned_nested(s: Stmt) -> Stmt
    decreases s,
{
    match s {
        Stmt::If { condition, then_body, else_body } => Stmt::If {
            condition,
            then_body: cleaned(then_body),
            else_body: cleaned(else_body),
        },
        Stmt::While { condition, body } => Stmt::While {
            condition,
            body: cleaned(body),
        },
        Stmt::DoWhile { body, condition } => Stmt::DoWhile {
            body: cleaned(body),
            condition,
        },
        Stmt::For { init, condition, update, body } => Stmt::For {
            init,
            condition,
            update,
            body: cleaned(body),
        },
        Stmt::ForIn { variable, object, body } => Stmt::ForIn {
            variable,
            object,
            body: cleaned(body),
        },
        Stmt::ForOf { variable, iterable, body } => Stmt::ForOf {
            variable,
            iterable,
            body: cleaned(body),
        },
        Stmt::Block(body) => Stmt::Block(cleaned(body)),
        Stmt::TryCatch { try_body, catch_param, catch_body, finally_body } => Stmt::TryCatch {
            try_body: cleaned(try_body),
            catch_param,
            catch_body: cleaned(catch_body),
            finally_body: cleaned(finally_body),
        },
        Stmt::Switch { discriminant, cases, default } => Stmt::Switch {
            discriminant,
            cases: cleaned_nested_cases(cases),
            default: cleaned_nested_default(default),
        },
        _ => s,
    }
}

pub open spec fn cleaned_nested_case(c: (Expr, Seq<Stmt>)) -> (Expr, Seq<Stmt>)
    decreases c,
{
    (c.0, cleaned(c.1))
}

pub open spec fn cleaned_nested_cases(s: Seq<(Expr, Seq<Stmt>)>) -> Seq<(Expr, Seq<Stmt>)>
    decreases s,
{
    Seq::new(
        s.len(),
        |i: int|
            if 0 <= i < s.len() {
                cleaned_nested_case(s[i])
            } else {
                arbitrary()
            },
    )
}

pub open spec fn cleaned_nested_default(d: Option<Seq<Stmt>>) -> Option<Seq<Stmt>>
    decreases d,
{
    match d {
        Some(b) => Some(cleaned(b)),
        None => None,
    }
}

pub fn clean_nested(s: &Statement) -> (r: Statement)
    ensures
        r@ == cleaned_nested(s@),
    decreases s,
{
    match s {
        Statement::If { condition, then_body, else_body } => Statement::If {
            condition: condition.clone(),
            then_body: clean(then_body),
            else_body: clean(else_body),
        },
        Statement::While { condition, body } => Statement::While {
            condition: condition.clone(),
            body: clean(body),
        },
        Statement::DoWhile { body, condition } => Statement::DoWhile {
            body: clean(body),
            condition: condition.clone(),
        },
        Statement::For { init, condition, update, body } => Statement::For {
            init: clone_opt_stmt(init),
            condition: clone_opt_expr(condition),
            update: clone_opt_stmt(update),
            body: clean(body),
        },
        Statement::ForIn { variable, object, body } => Statement::ForIn {
            variable: variable.clone(),
            object: object.clone(),
            body: clean(body),
        },
        Statement::ForOf { variable, iterable, body } => Statement::ForOf {
            variable: variable.clone(),
            iterable: iterable.clone(),
            body: clean(body),
        },
        Statement::Block(body) => Statement::Block(clean(body)),
        Statement::TryCatch { try_body, catch_param, catch_body, finally_body } => Statement::TryCatch {
            try_body: clean(try_body),
            catch_param: clone_opt_text(catch_param),
            catch_body: clean(catch_body),
            finally_body: clean(finally_body),
        },
        Statement::Switch { discriminant, cases, default } => Statement::Switch {
            discriminant: discriminant.clone(),
            cases: clean_nested_cases(cases),
            default: clean_nested_default(default),
        },
        _ => s.clone(),
    }
}

fn clean_nested_cases(v: &Vec<(Expression, Vec<Statement>)>) -> (r: Vec<(Expression, Vec<Statement>)>)
    ensures
        model::case_arms(r@) == cleaned_nested_cases(model::case_arms(v@)),
    decreases v,
{
    let mut out: Vec<(Expression, Vec<Statement>)> = Vec::new();
    let mut i: usize = 0;
    while i < v.len()
        invariant
            i <= v.len(),
            out.len() == i,
            forall|k: int|
                0 <= k < i ==> model::case_arm(#[trigger] out@[k]) == cleaned_nested_case(
                    model::case_arm(v@[k]),
                ),
        decreases v.len() - i,
    {
        out.push((v[i].0.clone(), clean(&v[i].1)));
        i += 1;
    }
    assert(model::case_arms(out@) =~= cleaned_nested_cases(model::case_arms(v@)));
    out
}

fn clean_nested_default(d: &Option<Vec<Statement>>) -> (r: Option<Vec<Statement>>)
    ensures
        model::opt_stmts(r) == cleaned_nested_default(model::opt_stmts(*d)),
    decreases d,
{
    match d {
        Some(b) => Some(clean(b)),
        None => None,
    }
}

fn is_variable_named(e: &Expression, n: &str) -> (r: bool)
    ensures
        r == (e@ == Expr::Value(Val::Variable(n@))),
{
    match e {
        Expression::Value(Value::Variable(v)) => text::same(v, n),
        _ => false,
    }
}

fn is_self_assignment(s: &Statement) -> (r: bool)
    ensures
        r == self_assignment(s@),
{
    match s {
        Statement::Assign { target: AssignTarget::Variable(n), value } => is_variable_named(
            value,
            n,
        ),
        Statement::Assign { target: AssignTarget::Register(r), value } => match value {
            Expression::Value(Value::Register(x)) => *x == *r,
            _ => false,
        },
        Statement::Let { name, value, .. } => is_variable_named(value, name),
        _ => false,
    }
}

fn clean(v: &Vec<Statement>) -> (r: Vec<Statement>)
    ensures
        model::stmts(r@) == cleaned(model::stmts(v@)),
    decreases v,
{
    let ghost all = model::stmts(v@);
    let mut out: Vec<Statement> = Vec::new();
    let mut i: usize = 0;
    assert(model::stmts(out@) =~= Seq::empty());
    while i < v.len()
        invariant
            i <= v.len(),
            all == model::stmts(v@),
            model::stmts(out@) == cleaned(all.take(i as int)),
        decreases v.len() - i,
    {
        assert(all.take(i + 1).drop_last() =~= all.take(i as int));
        assert(all[i as int] == v@[i as int]@);
        let ghost before = out@;
        if !is_self_assignment(&v[i]) {
            let s = clean_nested(&v[i]);
            let ghost x = s@;
            out.push(s);
            assert(model::stmts(out@) =~= model::stmts(before).push(x));
        }
        i += 1;
    }
    assert(all.take(all.len() as int) =~= all);
    out
}

/// Removes the statements that do nothing.
pub fn cleanup_noise(stmts: Vec<Statement>) -> (r: Vec<Statement>)
    ensures
        model::stmts(r@) == cleaned(model::stmts(stmts@)),
{
    clean(&stmts)
}

/// No self-assignment is left in a cleaned list.
pub proof fn lemma_cleaned(s: Seq<Stmt>, i: int)
    requires
        0 <= i < cleaned(s).len(),
    ensures
        !self_assignment(cleaned(s)[i]),
    decreases s.len(),
{
    if s.len() > 0 {
        let t = s.drop_last();
        if i < cleaned(t).len() {
            lemma_cleaned(t, i);
        } else {
            let x = cleaned_nested(s.last());
            assert(cleaned(s)[i] == x);
            assert(x is Assign || x is Let ==> x == s.last());
        }
    }
}

/// Self-assignments go from every list in a statement, and the rest of it stays.
pub proof fn lemma_self_assignments_go_from_every_list(s: Stmt)
    ensures
        bodies::within(cleaned_nested(s), s, |b: Seq<Stmt>| cleaned(b)),
{
    let f = |b: Seq<Stmt>| cleaned(b);
    let t = cleaned_nested(s);
    if let Stmt::Switch { cases, default, .. } = s {
        let made = cleaned_nested_cases(cases);
        let rest = cleaned_nested_default(default);
        assert forall|i: int| 0 <= i < cases.len() implies #[trigger] made[i] == (
            cases[i].0,
            f(cases[i].1),
        ) by {
            assert(made[i] == cleaned_nested_case(cases[i]));
        }
        assert(Seq::new(made.len(), |i: int| (made[i].0, Seq::<Stmt>::empty())) =~= Seq::new(
            cases.len(),
            |i: int| (cases[i].0, Seq::<Stmt>::empty()),
        ));
    }
    assert(bodies::bodies(t) =~= bodies::bodies(s).map_values(f));
}

} // verus!
