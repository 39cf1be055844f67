//! Turns conditionals that choose a value into conditional expressions.

use crate::ir::cloning::{clone_opt_expr, clone_opt_stmt, clone_opt_text};
use crate::ir::model;
use crate::ir::model::{Expr, Stmt};
use crate::ir::{AssignTarget, Expression, Statement};
use vstd::prelude::*;

verus! {

pub open spec fn conditional(c: Expr, a: Expr, b: Expr) -> Expr {
    Expr::Conditional {
        condition: Box::new(c),
        then_expr: Box::new(a),
        else_expr: Box::new(b),
    }
}

/// A conditional whose branches assign one register or variable, or both return a value, as the
/// assignment or the return of a conditional expression.
pub open spec fn chosen_if(s: Stmt) -> Stmt {
    match s {
        Stmt::If { condition, then_body, else_body } => if then_body.len() == 1 && else_body.len()
            == 1 {
            match (then_body[0], else_body[0]) {
                (
                    Stmt::Assign { target: t, value: a },
                    Stmt::Assign { target: u, value: b },
                ) => if t == u && (t is Register || t is Variable) {
                    Stmt::Assign { target: t, value: conditional(condition, a, b) }
                } else {
                    s
                },
                (Stmt::Return(Some(a)), Stmt::Return(Some(b))) => Stmt::Return(
                    Some(conditional(condition, a, b)),
                ),
                _ => s,
            }
        } else {
            s
        },
        _ => s,
    }
}

/// The list with its choices as expressions, nested lists first.
pub open spec fn chosen(s: Seq<Stmt>) -> Seq<Stmt>
    decreases s, 1nat,
{
    Seq::new(
        s.len(),
        |i: int|
            if 0 <= i < s.len() {
                chosen_if(chosen_nested(s[i]))
            } else {
                arbitrary()
            },
    )
}

pub open spec fn chosen_nested(s: Stmt) -> Stmt
    decreases s, 0nat,
{
    match s {
        Stmt::If { condition, then_body, else_body } => Stmt::If {
            condition,
            then_body: chosen(then_body),
            else_body: chosen(else_body),
        },
        Stmt::While { condition, body } => Stmt::While {
            condition,
            body: chosen(body),
        },
        Stmt::DoWhile { body, condition } => Stmt::DoWhile {
            body: chosen(body),
            condition,
        },
        Stmt::For { init, condition, update, body } => Stmt::For {
            init,
            condition,
            update,
            body: chosen(body),
        },
        Stmt::ForIn { variable, object, body } => Stmt::ForIn {
            variable,
            object,
            body: chosen(body),
        },
        Stmt::ForOf { variable, iterable, body } => Stmt::ForOf {
            variable,
            iterable,
            body: chosen(body),
        },
        Stmt::Block(body) => Stmt::Block(chosen(body)),
        Stmt::TryCatch { try_body, catch_param, catch_body, finally_body } => Stmt::TryCatch {
            try_body: chosen(try_body),
            catch_param,
            catch_body: chosen(catch_body),
            finally_body: chosen(finally_body),
        },
        Stmt::Switch { discriminant, cases, default } => Stmt::Switch {
            discriminant,
            cases: chosen_nested_cases(cases),
            default: chosen_nested_default(default),
        },
        _ => s,
    }
}

pub open spec fn chosen_nested_case(c: (Expr, Seq<Stmt>)) -> (Expr, Seq<Stmt>)
    decreases c, 0nat,
{
    (c.0, chosen(c.1))
}

pub open spec fn chosen_nested_cases(s: Seq<(Expr, Seq<Stmt>)>) -> Seq<(Expr, Seq<Stmt>)>
    decreases s, 0nat,
{
    Seq::new(
        s.len(),
        |i: int|
            if 0 <= i < s.len() {
                chosen_nested_case(s[i])
            } else {
                arbitrary()
            },
    )
}

pub open spec fn chosen_nested_default(d: Option<Seq<Stmt>>) -> Option<Seq<Stmt>>
    decreases d, 0nat,
{
    match d {
        Some(b) => Some(chosen(b)),
        None => None,
    }
}

fn choose_if(s: Statement) -> (r: Statement)
    ensures
        r@ == chosen_if(s@),
{
    proof {
        reveal_with_fuel(Statement::view, 2);
    }
    if let Statement::If { condition, then_body, else_body } = &s {
        assert(model::stmts(then_body@).len() == then_body@.len());
        assert(model::stmts(else_body@).len() == else_body@.len());
        if then_body.len() == 1 && else_body.len() == 1 {
            assert(model::stmts(then_body@)[0] == then_body@[0]@);
            assert(model::stmts(else_body@)[0] == else_body@[0]@);
            match (&then_body[0], &else_body[0]) {
                (
                    Statement::Assign { target: t, value: a },
                    Statement::Assign { target: u, value: b },
                ) => {
                    let simple: bool = match t {
                        AssignTarget::Register(_) => true,
                        AssignTarget::Variable(_) => true,
                        _ => false,
                    };
                    assert(simple == (t@ is Register || t@ is Variable));
                    if t.same(u) && simple {
                        return Statement::Assign {
                            target: t.clone(),
                            value: make_conditional(condition, a, b),
                        };
                    }
                },
                (Statement::Return(Some(a)), Statement::Return(Some(b))) => {
                    return Statement::Return(Some(make_conditional(condition, a, b)));
                },
                _ => {},
            }
        }
    }
    s
}

fn make_conditional(c: &Expression, a: &Expression, b: &Expression) -> (r: Expression)
    ensures
        r@ == conditional(c@, a@, b@),
{
    Expression::Conditional {
        condition: Box::new(c.clone()),
        then_expr: Box::new(a.clone()),
        else_expr: Box::new(b.clone()),
    }
}

fn choose_list(v: &Vec<Statement>) -> (r: Vec<Statement>)
    ensures
        model::stmts(r@) == chosen(model::stmts(v@)),
    decreases v, 1nat,
{
    let mut out: Vec<Statement> = Vec::new();
    let mut i: usize = 0;
    while i < v.len()
        invariant
            i <= v.len(),
            out.len() == i,
            forall|k: int| 0 <= k < i ==> (#[trigger] out@[k])@ == chosen_if(chosen_nested(v@[k]@)),
        decreases v.len() - i,
    {
        let x = choose_if(choose_nested(&v[i]));
        out.push(x);
        i += 1;
    }
    assert(model::stmts(out@) =~= chosen(model::stmts(v@)));
    out
}

fn choose_nested(s: &Statement) -> (r: Statement)
    ensures
        r@ == chosen_nested(s@),
    decreases s, 0nat,
{
    match s {
        Statement::If { condition, then_body, else_body } => Statement::If {
            condition: condition.clone(),
            then_body: choose_list(then_body),
            else_body: choose_list(else_body),
        },
        Statement::While { condition, body } => Statement::While {
            condition: condition.clone(),
            body: choose_list(body),
        },
        Statement::DoWhile { body, condition } => Statement::DoWhile {
            body: choose_list(body),
            condition: condition.clone(),
        },
        Statement::For { init, condition, update, body } => Statement::For {
            init: clone_opt_stmt(init),
            condition: clone_opt_expr(condition),
            update: clone_opt_stmt(update),
            body: choose_list(body),
        },
        Statement::ForIn { variable, object, body } => Statement::ForIn {
            variable: variable.clone(),
            object: object.clone(),
            body: choose_list(body),
        },
        Statement::ForOf { variable, iterable, body } => Statement::ForOf {
            variable: variable.clone(),
            iterable: iterable.clone(),
            body: choose_list(body),
        },
        Statement::Block(body) => Statement::Block(choose_list(body)),
        Statement::TryCatch { try_body, catch_param, catch_body, finally_body } => Statement::TryCatch {
            try_body: choose_list(try_body),
            catch_param: clone_opt_text(catch_param),
            catch_body: choose_list(catch_body),
            finally_body: choose_list(finally_body),
        },
        Statement::Switch { discriminant, cases, default } => Statement::Switch {
            discriminant: discriminant.clone(),
            cases: choose_nested_cases(cases),
            default: choose_nested_default(default),
        },
        _ => s.clone(),
    }
}

fn choose_nested_cases(v: &Vec<(Expression, Vec<Statement>)>) -> (r: Vec<(Expression, Vec<Statement>)>)
    ensures
        model::case_arms(r@) == chosen_nested_cases(model::case_arms(v@)),
    decreases v, 0nat,
{
    let mut out: Vec<(Expression, Vec<Statement>)> = Vec::new();
    let mut i: usize = 0;
    while i < v.len()
        invariant
            i <= v.len(),
            out.len() == i,
            forall|k: int|
                0 <= k < i ==> model::case_arm(#[trigger] out@[k]) == chosen_nested_case(
                    model::case_arm(v@[k]),
                ),
        decreases v.len() - i,
    {
        out.push((v[i].0.clone(), choose_list(&v[i].1)));
        i += 1;
    }
    assert(model::case_arms(out@) =~= chosen_nested_cases(model::case_arms(v@)));
    out
}

fn choose_nested_default(d: &Option<Vec<Statement>>) -> (r: Option<Vec<Statement>>)
    ensures
        model::opt_stmts(r) == chosen_nested_default(model::opt_stmts(*d)),
    decreases d, 0nat,
{
    match d {
        Some(b) => Some(choose_list(b)),
        None => None,
    }
}

/// Turns conditionals that choose a value into conditional expressions.
pub fn detect_ternaries(stmts: Vec<Statement>) -> (r: Vec<Statement>)
    ensures
        model::stmts(r@) == chosen(model::stmts(stmts@)),
{
    choose_list(&stmts)
}

} // verus!
