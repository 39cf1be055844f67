//! The statements of a body, nested ones included.

use super::model;
use super::model::{Expr, Stmt};
use super::{Expression, Statement};
use vstd::prelude::*;

verus! {

/// A statement and those inside it, each before what it holds.
pub open spec fn flat_stmt(s: Stmt) -> Seq<Stmt>
    decreases s,
{
    seq![s] + match s {
        Stmt::If { then_body, else_body, .. } => flat(then_body) + flat(else_body),
        Stmt::While { body, .. } => flat(body),
        Stmt::DoWhile { body, .. } => flat(body),
        Stmt::For { init, update, body, .. } => flat_opt(init) + flat_opt(update) + flat(body),
        Stmt::ForIn { body, .. } => flat(body),
        Stmt::ForOf { body, .. } => flat(body),
        Stmt::Block(body) => flat(body),
        Stmt::TryCatch { try_body, catch_body, finally_body, .. } => flat(try_body) + flat(
            catch_body,
        ) + flat(finally_body),
        Stmt::Switch { cases, default, .. } => flat_cases(cases) + flat_default(default),
        _ => Seq::empty(),
    }
}

/// The statements of a list and those inside them.
pub open spec fn flat(s: Seq<Stmt>) -> Seq<Stmt>
    decreases s,
{
    if s.len() == 0 {
        Seq::empty()
    } else {
        flat(s.drop_last()) + flat_stmt(s.last())
    }
}

pub open spec fn flat_opt(o: Option<Box<Stmt>>) -> Seq<Stmt>
    decreases o,
{
    match o {
        Some(s) => flat_stmt(*s),
        None => Seq::empty(),
    }
}

pub open spec fn flat_default(o: Option<Seq<Stmt>>) -> Seq<Stmt>
    decreases o,
{
    match o {
        Some(s) => flat(s),
        None => Seq::empty(),
    }
}

pub open spec fn flat_cases(s: Seq<(Expr, Seq<Stmt>)>) -> Seq<Stmt>
    decreases s,
{
    if s.len() == 0 {
        Seq::empty()
    } else {
        flat_cases(s.drop_last()) + flat(s.last().1)
    }
}

/// The models of statements.
pub open spec fn seen(s: Seq<&Statement>) -> Seq<Stmt> {
    s.map_values(|x: &Statement| x@)
}

proof fn lemma_add_assoc<A>(a: Seq<A>, b: Seq<A>, c: Seq<A>)
    ensures
        (a + b) + c == a + (b + c),
{
    assert((a + b) + c =~= a + (b + c));
}

fn push_stmt<'a>(s: &'a Statement, out: &mut Vec<&'a Statement>)
    ensures
        seen(final(out)@) == seen(old(out)@) + flat_stmt(s@),
    decreases s,
{
    let ghost before = seen(out@);
    let ghost raw = out@;
    out.push(s);
    let ghost head = before + seq![s@];
    assert(seen(out@) =~= head);
    match s {
        Statement::If { then_body, else_body, .. } => {
            push_stmts(then_body, out);
            push_stmts(else_body, out);
            proof {
                let a = flat(model::stmts(then_body@));
                let b = flat(model::stmts(else_body@));
                lemma_add_assoc(head, a, b);
                lemma_add_assoc(before, seq![s@], a + b);
            }
        },
        Statement::While { body, .. } => {
            push_stmts(body, out);
            proof {
                lemma_add_assoc(before, seq![s@], flat(model::stmts(body@)));
            }
        },
        Statement::DoWhile { body, .. } => {
            push_stmts(body, out);
            proof {
                lemma_add_assoc(before, seq![s@], flat(model::stmts(body@)));
            }
        },
        Statement::For { init, update, body, .. } => {
            push_opt(init, out);
            push_opt(update, out);
            push_stmts(body, out);
            proof {
                let a = flat_opt(model::opt_stmt(*init));
                let b = flat_opt(model::opt_stmt(*update));
                let c = flat(model::stmts(body@));
                lemma_add_assoc(head, a, b);
                lemma_add_assoc(head, a + b, c);
                lemma_add_assoc(before, seq![s@], a + b + c);
            }
        },
        Statement::ForIn { body, .. } => {
            push_stmts(body, out);
            proof {
                lemma_add_assoc(before, seq![s@], flat(model::stmts(body@)));
            }
        },
        Statement::ForOf { body, .. } => {
            push_stmts(body, out);
            proof {
                lemma_add_assoc(before, seq![s@], flat(model::stmts(body@)));
            }
        },
        Statement::Block(body) => {
            push_stmts(body, out);
            proof {
                lemma_add_assoc(before, seq![s@], flat(model::stmts(body@)));
            }
        },
        Statement::TryCatch { try_body, catch_body, finally_body, .. } => {
            push_stmts(try_body, out);
            push_stmts(catch_body, out);
            push_stmts(finally_body, out);
            proof {
                let a = flat(model::stmts(try_body@));
                let b = flat(model::stmts(catch_body@));
                let c = flat(model::stmts(finally_body@));
                lemma_add_assoc(head, a, b);
                lemma_add_assoc(head, a + b, c);
                lemma_add_assoc(before, seq![s@], a + b + c);
            }
        },
        Statement::Switch { cases, default, .. } => {
            push_cases(cases, out);
            push_default(default, out);
            proof {
                let a = flat_cases(model::case_arms(cases@));
                let b = flat_default(model::opt_stmts(*default));
                lemma_add_assoc(head, a, b);
                lemma_add_assoc(before, seq![s@], a + b);
            }
        },
        _ => {
            assert(head + Seq::empty() =~= head);
            assert(flat_stmt(s@) =~= seq![s@]);
        },
    }
}

fn push_opt<'a>(o: &'a Option<Box<Statement>>, out: &mut Vec<&'a Statement>)
    ensures
        seen(final(out)@) == seen(old(out)@) + flat_opt(model::opt_stmt(*o)),
    decreases o,
{
    match o {
        Some(s) => push_stmt(s, out),
        None => {
            assert(seen(out@) =~= seen(out@) + Seq::empty());
        },
    }
}

fn push_default<'a>(o: &'a Option<Vec<Statement>>, out: &mut Vec<&'a Statement>)
    ensures
        seen(final(out)@) == seen(old(out)@) + flat_default(model::opt_stmts(*o)),
    decreases o,
{
    match o {
        Some(s) => push_stmts(s, out),
        None => {
            assert(seen(out@) =~= seen(out@) + Seq::empty());
        },
    }
}

fn push_cases<'a>(v: &'a Vec<(Expression, Vec<Statement>)>, out: &mut Vec<&'a Statement>)
    ensures
        seen(final(out)@) == seen(old(out)@) + flat_cases(model::case_arms(v@)),
    decreases v,
{
    let ghost all = model::case_arms(v@);
    let ghost first = seen(out@);
    let mut i: usize = 0;
    assert(first + flat_cases(all.take(0)) =~= first);
    while i < v.len()
        invariant
            i <= v.len(),
            all == model::case_arms(v@),
            seen(out@) == first + flat_cases(all.take(i as int)),
        decreases v.len() - i,
    {
        assert(all.take(i + 1).drop_last() =~= all.take(i as int));
        assert(all[i as int] == model::case_arm(v@[i as int]));
        push_stmts(&v[i].1, out);
        proof {
            lemma_add_assoc(first, flat_cases(all.take(i as int)), flat(all[i as int].1));
        }
        i += 1;
    }
    assert(all.take(all.len() as int) =~= all);
}

fn push_stmts<'a>(v: &'a Vec<Statement>, out: &mut Vec<&'a Statement>)
    ensures
        seen(final(out)@) == seen(old(out)@) + flat(model::stmts(v@)),
    decreases v,
{
    let ghost all = model::stmts(v@);
    let ghost first = seen(out@);
    let mut i: usize = 0;
    assert(first + flat(all.take(0)) =~= first);
    while i < v.len()
        invariant
            i <= v.len(),
            all == model::stmts(v@),
            seen(out@) == first + flat(all.take(i as int)),
        decreases v.len() - i,
    {
        assert(all.take(i + 1).drop_last() =~= all.take(i as int));
        push_stmt(&v[i], out);
        proof {
            lemma_add_assoc(first, flat(all.take(i as int)), flat_stmt(all[i as int]));
        }
        i += 1;
    }
    assert(all.take(all.len() as int) =~= all);
}

/// The statements of a body and those inside them.
pub fn of_stmts<'a>(v: &'a Vec<Statement>) -> (r: Vec<&'a Statement>)
    ensures
        seen(r@) == flat(model::stmts(v@)),
{
    let mut out: Vec<&'a Statement> = Vec::new();
    push_stmts(v, &mut out);
    assert(seen(out@) =~= flat(model::stmts(v@)));
    out
}

/// The statement and all nested in it.
pub fn of_stmt<'a>(s: &'a Statement) -> (r: Vec<&'a Statement>)
    ensures
        seen(r@) == flat_stmt(s@),
{
    let mut out: Vec<&'a Statement> = Vec::new();
    push_stmt(s, &mut out);
    assert(seen(out@) =~= flat_stmt(s@));
    out
}

} // verus!
