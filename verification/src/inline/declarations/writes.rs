//! How often the variables of a function are written.

use crate::ir::model;
use crate::ir::model::{Expr, Stmt, Target, Val};
use crate::ir::visit;
use crate::ir::{AssignTarget, Expression, Statement, Value};
use crate::names;
use crate::text;
use vstd::prelude::*;

verus! {

/// The name that an assignment writes; a register goes by its number.
pub open spec fn written(s: Stmt) -> Option<Seq<char>> {
    match s {
        Stmt::Assign { target: Target::Variable(n), .. } => Some(n),
        Stmt::Assign { target: Target::Register(r), .. } => Some(names::register_name(r)),
        _ => None,
    }
}

/// Writes in the body of a loop count as two at least, since the loop repeats them.
pub open spec fn repeated(n: nat) -> nat {
    if n == 1 {
        2
    } else {
        n
    }
}

/// How often a statement writes a name.
pub open spec fn writes_stmt(s: Stmt, n: Seq<char>) -> nat
    decreases s,
{
    match s {
        Stmt::Assign { .. } => if written(s) == Some(n) {
            1
        } else {
            0
        },
        Stmt::If { then_body, else_body, .. } => writes(then_body, n) + writes(else_body, n),
        Stmt::While { body, .. } => repeated(writes(body, n)),
        Stmt::DoWhile { body, .. } => repeated(writes(body, n)),
        Stmt::For { init, update, body, .. } => writes_opt(init, n) + repeated(
            writes_opt(update, n) + writes(body, n),
        ),
        Stmt::ForIn { body, .. } => repeated(writes(body, n)),
        Stmt::ForOf { body, .. } => repeated(writes(body, n)),
        Stmt::Block(body) => writes(body, n),
        Stmt::TryCatch { try_body, catch_body, finally_body, .. } => writes(try_body, n) + writes(
            catch_body,
            n,
        ) + writes(finally_body, n),
        Stmt::Switch { cases, default, .. } => writes_cases(cases, n) + writes_default(default, n),
        _ => 0,
    }
}

/// How often the statements of a list write a name.
pub open spec fn writes(s: Seq<Stmt>, n: Seq<char>) -> nat
    decreases s,
{
    if s.len() == 0 {
        0
    } else {
        writes(s.drop_last(), n) + writes_stmt(s.last(), n)
    }
}

pub open spec fn writes_opt(o: Option<Box<Stmt>>, n: Seq<char>) -> nat
    decreases o,
{
    match o {
        Some(s) => writes_stmt(*s, n),
        None => 0,
    }
}

pub open spec fn writes_default(o: Option<Seq<Stmt>>, n: Seq<char>) -> nat
    decreases o,
{
    match o {
        Some(s) => writes(s, n),
        None => 0,
    }
}

pub open spec fn writes_cases(s: Seq<(Expr, Seq<Stmt>)>, n: Seq<char>) -> nat
    decreases s,
{
    if s.len() == 0 {
        0
    } else {
        writes_cases(s.drop_last(), n) + writes(s.last().1, n)
    }
}

/// The name that an assignment inside an expression writes.
pub open spec fn written_inside(e: Expr) -> Option<Seq<char>> {
    match e {
        Expr::Assignment { target, .. } => match *target {
            Expr::Value(Val::Variable(n)) => Some(n),
            Expr::Value(Val::Register(r)) => Some(names::register_name(r)),
            _ => None,
        },
        _ => None,
    }
}

/// How often assignments inside expressions write a name.
pub open spec fn writes_inside(s: Seq<Expr>, n: Seq<char>) -> nat
    decreases s.len(),
{
    if s.len() == 0 {
        0
    } else if written_inside(s.last()) == Some(n) {
        writes_inside(s.drop_last(), n) + 1
    } else {
        writes_inside(s.drop_last(), n)
    }
}

/// How often a function writes a name, by statements and inside expressions.
pub open spec fn all_writes(s: Seq<Stmt>, n: Seq<char>) -> nat {
    writes(s, n) + writes_inside(visit::stmts_visits(s), n)
}

/// A number as a machine integer, the largest one where it does not fit.
pub open spec fn capped(n: nat) -> usize {
    if n < usize::MAX {
        n as usize
    } else {
        usize::MAX
    }
}

/// The sum of two numbers, capped.
pub(crate) fn sum(a: usize, b: usize, Ghost(x): Ghost<nat>, Ghost(y): Ghost<nat>) -> (r: usize)
    requires
        a == capped(x),
        b == capped(y),
    ensures
        r == capped(x + y),
{
    if a > usize::MAX - b {
        usize::MAX
    } else {
        a + b
    }
}

fn repeat_writes(a: usize) -> (r: usize)
    ensures
        forall|x: nat| a == #[trigger] capped(x) ==> r == capped(repeated(x)),
{
    if a == 1 {
        2
    } else {
        a
    }
}

/// Whether an assignment writes a name.
fn is_written(s: &Statement, n: &str) -> (r: bool)
    ensures
        r == (written(s@) == Some(n@)),
{
    match s {
        Statement::Assign { target: AssignTarget::Variable(x), .. } => text::same(x, n),
        Statement::Assign { target: AssignTarget::Register(r), .. } => text::same(
            &names::name_of_register(*r),
            n,
        ),
        _ => false,
    }
}

fn count_writes_stmt(s: &Statement, n: &str) -> (r: usize)
    ensures
        r == capped(writes_stmt(s@, n@)),
    decreases s,
{
    match s {
        Statement::Assign { .. } => if is_written(s, n) {
            1
        } else {
            0
        },
        Statement::If { then_body, else_body, .. } => sum(
            count_writes(then_body, n),
            count_writes(else_body, n),
            Ghost(writes(model::stmts(then_body@), n@)),
            Ghost(writes(model::stmts(else_body@), n@)),
        ),
        Statement::While { body, .. } => repeat_writes(count_writes(body, n)),
        Statement::DoWhile { body, .. } => repeat_writes(count_writes(body, n)),
        Statement::For { init, update, body, .. } => {
            let ghost a = writes_opt(model::opt_stmt(*init), n@);
            let ghost b = writes_opt(model::opt_stmt(*update), n@);
            let ghost c = writes(model::stmts(body@), n@);
            let first: usize = match init {
                Some(x) => count_writes_stmt(x, n),
                None => 0,
            };
            let next: usize = match update {
                Some(x) => count_writes_stmt(x, n),
                None => 0,
            };
            let inner: usize = sum(next, count_writes(body, n), Ghost(b), Ghost(c));
            sum(first, repeat_writes(inner), Ghost(a), Ghost(repeated(b + c)))
        },
        Statement::ForIn { body, .. } => repeat_writes(count_writes(body, n)),
        Statement::ForOf { body, .. } => repeat_writes(count_writes(body, n)),
        Statement::Block(body) => count_writes(body, n),
        Statement::TryCatch { try_body, catch_body, finally_body, .. } => {
            let ghost a = writes(model::stmts(try_body@), n@);
            let ghost b = writes(model::stmts(catch_body@), n@);
            let ghost c = writes(model::stmts(finally_body@), n@);
            let two: usize = sum(
                count_writes(try_body, n),
                count_writes(catch_body, n),
                Ghost(a),
                Ghost(b),
            );
            sum(two, count_writes(finally_body, n), Ghost(a + b), Ghost(c))
        },
        Statement::Switch { cases, default, .. } => {
            let rest: usize = match default {
                Some(d) => count_writes(d, n),
                None => 0,
            };
            sum(
                count_case_writes(cases, n),
                rest,
                Ghost(writes_cases(model::case_arms(cases@), n@)),
                Ghost(writes_default(model::opt_stmts(*default), n@)),
            )
        },
        _ => 0,
    }
}

fn count_case_writes(v: &Vec<(Expression, Vec<Statement>)>, n: &str) -> (r: usize)
    ensures
        r == capped(writes_cases(model::case_arms(v@), n@)),
    decreases v,
{
    let ghost all = model::case_arms(v@);
    let mut total: usize = 0;
    let mut i: usize = 0;
    while i < v.len()
        invariant
            i <= v.len(),
            all == model::case_arms(v@),
            total == capped(writes_cases(all.take(i as int), n@)),
        decreases v.len() - i,
    {
        assert(all.take(i + 1).drop_last() =~= all.take(i as int));
        assert(all[i as int] == model::case_arm(v@[i as int]));
        total = sum(
            total,
            count_writes(&v[i].1, n),
            Ghost(writes_cases(all.take(i as int), n@)),
            Ghost(writes(all[i as int].1, n@)),
        );
        i += 1;
    }
    assert(all.take(all.len() as int) =~= all);
    total
}

/// How often the statements of a list write a name.
pub fn count_writes(v: &Vec<Statement>, n: &str) -> (r: usize)
    ensures
        r == capped(writes(model::stmts(v@), n@)),
    decreases v,
{
    let ghost all = model::stmts(v@);
    let mut total: usize = 0;
    let mut i: usize = 0;
    while i < v.len()
        invariant
            i <= v.len(),
            all == model::stmts(v@),
            total == capped(writes(all.take(i as int), n@)),
        decreases v.len() - i,
    {
        assert(all.take(i + 1).drop_last() =~= all.take(i as int));
        total = sum(
            total,
            count_writes_stmt(&v[i], n),
            Ghost(writes(all.take(i as int), n@)),
            Ghost(writes_stmt(all[i as int], n@)),
        );
        i += 1;
    }
    assert(all.take(all.len() as int) =~= all);
    total
}

/// The name that an assignment inside an expression writes.
pub fn name_written_inside(e: &Expression) -> (r: Option<String>)
    ensures
        text::opt(r) == written_inside(e@),
{
    proof {
        reveal_with_fuel(Expression::view, 2);
    }
    match e {
        Expression::Assignment { target, .. } => match &**target {
            Expression::Value(Value::Variable(n)) => Some(n.clone()),
            Expression::Value(Value::Register(r)) => Some(names::name_of_register(*r)),
            _ => None,
        },
        _ => None,
    }
}

/// How often a function writes a name.
pub fn count_all_writes(v: &Vec<Statement>, n: &str) -> (r: usize)
    ensures
        r == capped(all_writes(model::stmts(v@), n@)),
{
    let es = visit::of_stmts(v);
    let ghost all = visit::seen(es@);
    let mut total: usize = count_writes(v, n);
    let ghost w = writes(model::stmts(v@), n@);
    let mut i: usize = 0;
    while i < es.len()
        invariant
            i <= es.len(),
            all == visit::seen(es@),
            total == capped(w + writes_inside(all.take(i as int), n@)),
        decreases es.len() - i,
    {
        assert(all.take(i + 1).drop_last() =~= all.take(i as int));
        let e = es[i];
        assert(all[i as int] == e@);
        assert(all.take(i + 1).last() == e@);
        if let Some(x) = name_written_inside(e) {
            if text::same(&x, n) {
                total = sum(
                    total,
                    1,
                    Ghost(w + writes_inside(all.take(i as int), n@)),
                    Ghost(1),
                );
            }
        }
        i += 1;
    }
    assert(all.take(all.len() as int) =~= all);
    total
}

} // verus!
