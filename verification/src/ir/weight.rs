//! The number of statements in a body, nested ones included: what shrinks as bodies are taken
//! apart.

use super::model::{Expr, Stmt};
use super::naming;
use vstd::prelude::*;

verus! {

pub open spec fn weight_stmt(s: Stmt) -> nat
    decreases s,
{
    match s {
        Stmt::If { then_body, else_body, .. } => 1 + weight(then_body) + weight(else_body),
        Stmt::While { body, .. } => 1 + weight(body),
        Stmt::DoWhile { body, .. } => 1 + weight(body),
        Stmt::For { init, update, body, .. } => 1 + weight_opt(init) + weight_opt(update) + weight(
            body,
        ),
        Stmt::ForIn { body, .. } => 1 + weight(body),
        Stmt::ForOf { body, .. } => 1 + weight(body),
        Stmt::Block(body) => 1 + weight(body),
        Stmt::TryCatch { try_body, catch_body, finally_body, .. } => 1 + weight(try_body) + weight(
            catch_body,
        ) + weight(finally_body),
        Stmt::Switch { cases, default, .. } => 1 + weight_cases(cases) + weight_default(default),
        _ => 1,
    }
}

/// The number of statements in a list, nested ones included.
pub open spec fn weight(s: Seq<Stmt>) -> nat
    decreases s,
{
    if s.len() == 0 {
        0
    } else {
        weight(s.drop_last()) + weight_stmt(s.last())
    }
}

pub open spec fn weight_opt(o: Option<Box<Stmt>>) -> nat
    decreases o,
{
    match o {
        Some(s) => weight_stmt(*s),
        None => 0,
    }
}

pub open spec fn weight_default(o: Option<Seq<Stmt>>) -> nat
    decreases o,
{
    match o {
        Some(s) => weight(s),
        None => 0,
    }
}

pub open spec fn weight_cases(s: Seq<(Expr, Seq<Stmt>)>) -> nat
    decreases s,
{
    if s.len() == 0 {
        0
    } else {
        weight_cases(s.drop_last()) + weight(s.last().1)
    }
}

pub proof fn lemma_weight_push(s: Seq<Stmt>, x: Stmt)
    ensures
        weight(s.push(x)) == weight(s) + weight_stmt(x),
{
    assert(s.push(x).drop_last() =~= s);
}

pub proof fn lemma_weight_append(a: Seq<Stmt>, b: Seq<Stmt>)
    ensures
        weight(a + b) == weight(a) + weight(b),
    decreases b.len(),
{
    if b.len() == 0 {
        assert(a + b =~= a);
    } else {
        lemma_weight_append(a, b.drop_last());
        assert((a + b).drop_last() =~= a + b.drop_last());
        assert((a + b).last() == b.last());
    }
}

/// An element weighs no more than its list.
pub proof fn lemma_weight_element(s: Seq<Stmt>, i: int)
    requires
        0 <= i < s.len(),
    ensures
        weight_stmt(s[i]) <= weight(s),
    decreases s.len(),
{
    if i < s.len() - 1 {
        assert(s.drop_last()[i] == s[i]);
        lemma_weight_element(s.drop_last(), i);
    }
}

/// A part of a list weighs no more than the list.
pub proof fn lemma_weight_part(s: Seq<Stmt>, i: int, j: int)
    requires
        0 <= i <= j <= s.len(),
    ensures
        weight(s.subrange(i, j)) <= weight(s),
{
    let a = s.subrange(0, i);
    let b = s.subrange(i, j);
    let c = s.subrange(j, s.len() as int);
    assert(s =~= (a + b) + c);
    lemma_weight_append(a + b, c);
    lemma_weight_append(a, b);
}

/// A statement weighs at least one.
pub proof fn lemma_weight_positive(s: Stmt)
    ensures
        weight_stmt(s) >= 1,
{
}

/// Naming registers keeps the weight.
pub proof fn lemma_naming_keeps_weight(m: Map<u32, Seq<char>>, s: Seq<Stmt>)
    ensures
        weight(naming::nam_stmts(m, s)) == weight(s),
    decreases s,
{
    let t = naming::nam_stmts(m, s);
    if s.len() > 0 {
        assert(t.drop_last() =~= naming::nam_stmts(m, s.drop_last()));
        lemma_naming_keeps_weight(m, s.drop_last());
        lemma_naming_keeps_stmt(m, s.last());
        assert(t.last() == naming::nam_stmt(m, s.last()));
    }
}

pub proof fn lemma_naming_keeps_stmt(m: Map<u32, Seq<char>>, s: Stmt)
    ensures
        weight_stmt(naming::nam_stmt(m, s)) == weight_stmt(s),
    decreases s,
{
    match s {
        Stmt::If { then_body, else_body, .. } => {
            lemma_naming_keeps_weight(m, then_body);
            lemma_naming_keeps_weight(m, else_body);
        },
        Stmt::While { body, .. } => lemma_naming_keeps_weight(m, body),
        Stmt::DoWhile { body, .. } => lemma_naming_keeps_weight(m, body),
        Stmt::For { init, update, body, .. } => {
            if let Some(x) = init {
                lemma_naming_keeps_stmt(m, *x);
            }
            if let Some(x) = update {
                lemma_naming_keeps_stmt(m, *x);
            }
            lemma_naming_keeps_weight(m, body);
        },
        Stmt::ForIn { body, .. } => lemma_naming_keeps_weight(m, body),
        Stmt::ForOf { body, .. } => lemma_naming_keeps_weight(m, body),
        Stmt::Block(body) => lemma_naming_keeps_weight(m, body),
        Stmt::TryCatch { try_body, catch_body, finally_body, .. } => {
            lemma_naming_keeps_weight(m, try_body);
            lemma_naming_keeps_weight(m, catch_body);
            lemma_naming_keeps_weight(m, finally_body);
        },
        Stmt::Switch { cases, default, .. } => {
            lemma_naming_keeps_cases(m, cases);
            if let Some(d) = default {
                lemma_naming_keeps_weight(m, d);
            }
        },
        _ => {},
    }
}

proof fn lemma_naming_keeps_cases(m: Map<u32, Seq<char>>, s: Seq<(Expr, Seq<Stmt>)>)
    ensures
        weight_cases(naming::nam_cases(m, s)) == weight_cases(s),
    decreases s,
{
    let t = naming::nam_cases(m, s);
    if s.len() > 0 {
        assert(t.drop_last() =~= naming::nam_cases(m, s.drop_last()));
        lemma_naming_keeps_cases(m, s.drop_last());
        lemma_naming_keeps_weight(m, s.last().1);
        assert(t.last() == naming::nam_case(m, s.last()));
    }
}

} // verus!
