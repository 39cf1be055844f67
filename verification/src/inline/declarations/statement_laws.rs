//! Declaring variables changes nothing but the declarations, and declares each name once.

use super::Scope;
use crate::ir::model::{Expr, Stmt, Target};
use crate::names;
use vstd::prelude::*;

verus! {

/// A statement with its declarations read as assignments, and registers by their names.
pub open spec fn bare(s: Stmt) -> Stmt
    decreases s,
{
    match s {
        Stmt::Let { name, value, .. } => Stmt::Assign { target: Target::Variable(name), value },
        Stmt::Assign { target: Target::Register(r), value } => Stmt::Assign {
            target: Target::Variable(names::register_name(r)),
            value,
        },
        Stmt::If { condition, then_body, else_body } => Stmt::If {
            condition,
            then_body: bare_list(then_body),
            else_body: bare_list(else_body),
        },
        Stmt::While { condition, body } => Stmt::While { condition, body: bare_list(body) },
        Stmt::DoWhile { body, condition } => Stmt::DoWhile { body: bare_list(body), condition },
        Stmt::For { init, condition, update, body } => Stmt::For {
            init,
            condition,
            update,
            body: bare_list(body),
        },
        Stmt::ForIn { variable, object, body } => Stmt::ForIn {
            variable,
            object,
            body: bare_list(body),
        },
        Stmt::ForOf { variable, iterable, body } => Stmt::ForOf {
            variable,
            iterable,
            body: bare_list(body),
        },
        Stmt::Block(body) => Stmt::Block(bare_list(body)),
        Stmt::TryCatch { try_body, catch_param, catch_body, finally_body } => Stmt::TryCatch {
            try_body: bare_list(try_body),
            catch_param,
            catch_body: bare_list(catch_body),
            finally_body: bare_list(finally_body),
        },
        Stmt::Switch { discriminant, cases, default } => Stmt::Switch {
            discriminant,
            cases: bare_cases(cases),
            default: bare_default(default),
        },
        _ => s,
    }
}

pub open spec fn bare_list(s: Seq<Stmt>) -> Seq<Stmt>
    decreases s,
{
    if s.len() == 0 {
        Seq::empty()
    } else {
        bare_list(s.drop_last()).push(bare(s.last()))
    }
}

pub open spec fn bare_cases(s: Seq<(Expr, Seq<Stmt>)>) -> Seq<(Expr, Seq<Stmt>)>
    decreases s,
{
    if s.len() == 0 {
        Seq::empty()
    } else {
        bare_cases(s.drop_last()).push((s.last().0, bare_list(s.last().1)))
    }
}

pub open spec fn bare_default(o: Option<Seq<Stmt>>) -> Option<Seq<Stmt>>
    decreases o,
{
    match o {
        Some(s) => Some(bare_list(s)),
        None => None,
    }
}

/// How often a statement declares a name, nested lists included.
pub open spec fn lets(s: Stmt, n: Seq<char>) -> nat
    decreases s,
{
    match s {
        Stmt::Let { name, .. } => if name == n {
            1
        } else {
            0
        },
        Stmt::If { then_body, else_body, .. } => lets_list(then_body, n) + lets_list(else_body, n),
        Stmt::While { body, .. } => lets_list(body, n),
        Stmt::DoWhile { body, .. } => lets_list(body, n),
        Stmt::For { body, .. } => lets_list(body, n),
        Stmt::ForIn { body, .. } => lets_list(body, n),
        Stmt::ForOf { body, .. } => lets_list(body, n),
        Stmt::Block(body) => lets_list(body, n),
        Stmt::TryCatch { try_body, catch_body, finally_body, .. } => lets_list(try_body, n)
            + lets_list(catch_body, n) + lets_list(finally_body, n),
        Stmt::Switch { cases, default, .. } => lets_cases(cases, n) + lets_default(default, n),
        _ => 0,
    }
}

pub open spec fn lets_list(s: Seq<Stmt>, n: Seq<char>) -> nat
    decreases s,
{
    if s.len() == 0 {
        0
    } else {
        lets_list(s.drop_last(), n) + lets(s.last(), n)
    }
}

pub open spec fn lets_cases(s: Seq<(Expr, Seq<Stmt>)>, n: Seq<char>) -> nat
    decreases s,
{
    if s.len() == 0 {
        0
    } else {
        lets_cases(s.drop_last(), n) + lets_list(s.last().1, n)
    }
}

pub open spec fn lets_default(o: Option<Seq<Stmt>>, n: Seq<char>) -> nat
    decreases o,
{
    match o {
        Some(s) => lets_list(s, n),
        None => 0,
    }
}

/// Whether declarations were added as they should be: a name that was declared is not declared
/// again, and a name that is declared now was declared once.
pub open spec fn added(before: nat, after: nat, d: Set<Seq<char>>, e: Set<Seq<char>>, n: Seq<char>) -> bool {
    &&& d.contains(n) ==> e.contains(n)
    &&& after == before + (if e.contains(n) && !d.contains(n) {
        1nat
    } else {
        0nat
    })
}

/// Declaring the variables of a list keeps every statement, in its place, with its value, and adds
/// one declaration for each name that was not declared before.
pub proof fn lemma_only_declarations_are_added(c: Scope, d: Set<Seq<char>>, s: Seq<Stmt>, n: Seq<char>)
    ensures
        bare_list(super::dec_list(c, d, s).0) == bare_list(s),
        added(
            lets_list(s, n),
            lets_list(super::dec_list(c, d, s).0, n),
            d,
            super::dec_list(c, d, s).1,
            n,
        ),
    decreases s,
{
    if s.len() > 0 {
        let a = super::dec_list(c, d, s.drop_last());
        let b = super::dec_stmt(c, a.1, s.last());
        lemma_only_declarations_are_added(c, d, s.drop_last(), n);
        lemma_stmt(c, a.1, s.last(), n);
        let t = super::dec_list(c, d, s).0;
        assert(t == a.0.push(b.0));
        assert(t.drop_last() =~= a.0);
        assert(t.last() == b.0);
    }
}

proof fn lemma_stmt(c: Scope, d: Set<Seq<char>>, s: Stmt, n: Seq<char>)
    ensures
        bare(super::dec_stmt(c, d, s).0) == bare(s),
        added(lets(s, n), lets(super::dec_stmt(c, d, s).0, n), d, super::dec_stmt(c, d, s).1, n),
    decreases s,
{
    let t = super::dec_stmt(c, d, s).0;
    match s {
        Stmt::If { condition, then_body, else_body } => {
            let a = super::dec_list(c, d, then_body);
            let b = super::dec_list(c, a.1, else_body);
            lemma_only_declarations_are_added(c, d, then_body, n);
            lemma_only_declarations_are_added(c, a.1, else_body, n);
            assert(t == (Stmt::If { condition, then_body: a.0, else_body: b.0 }));
            assert(lets(t, n) == lets_list(a.0, n) + lets_list(b.0, n));
        },
        Stmt::While { condition, body } => {
            let a = super::dec_list(c, d, body);
            lemma_only_declarations_are_added(c, d, body, n);
            assert(t == (Stmt::While { condition, body: a.0 }));
            assert(lets(t, n) == lets_list(a.0, n));
        },
        Stmt::DoWhile { body, condition } => {
            let a = super::dec_list(c, d, body);
            lemma_only_declarations_are_added(c, d, body, n);
            assert(t == (Stmt::DoWhile { body: a.0, condition }));
            assert(lets(t, n) == lets_list(a.0, n));
        },
        Stmt::For { init, condition, update, body } => {
            let a = super::dec_list(c, d, body);
            lemma_only_declarations_are_added(c, d, body, n);
            assert(t == (Stmt::For { init, condition, update, body: a.0 }));
            assert(lets(t, n) == lets_list(a.0, n));
        },
        Stmt::ForIn { variable, object, body } => {
            let a = super::dec_list(c, d, body);
            lemma_only_declarations_are_added(c, d, body, n);
            assert(t == (Stmt::ForIn { variable, object, body: a.0 }));
            assert(lets(t, n) == lets_list(a.0, n));
        },
        Stmt::ForOf { variable, iterable, body } => {
            let a = super::dec_list(c, d, body);
            lemma_only_declarations_are_added(c, d, body, n);
            assert(t == (Stmt::ForOf { variable, iterable, body: a.0 }));
            assert(lets(t, n) == lets_list(a.0, n));
        },
        Stmt::Block(body) => {
            let a = super::dec_list(c, d, body);
            lemma_only_declarations_are_added(c, d, body, n);
            assert(t == (Stmt::Block(a.0)));
            assert(lets(t, n) == lets_list(a.0, n));
        },
        Stmt::TryCatch { try_body, catch_param, catch_body, finally_body } => {
            let x = super::dec_list(c, d, try_body);
            let y = super::dec_list(c, x.1, catch_body);
            let z = super::dec_list(c, y.1, finally_body);
            lemma_only_declarations_are_added(c, d, try_body, n);
            lemma_only_declarations_are_added(c, x.1, catch_body, n);
            lemma_only_declarations_are_added(c, y.1, finally_body, n);
            assert(t == (Stmt::TryCatch {
                try_body: x.0,
                catch_param,
                catch_body: y.0,
                finally_body: z.0,
            }));
            assert(lets(t, n) == lets_list(x.0, n) + lets_list(y.0, n) + lets_list(z.0, n));
        },
        Stmt::Switch { discriminant, cases, default } => {
            let a = super::dec_cases(c, d, cases);
            lemma_cases(c, d, cases, n);
            match default {
                Some(b) => {
                    let z = super::dec_list(c, a.1, b);
                    lemma_only_declarations_are_added(c, a.1, b, n);
                    assert(lets_default(default, n) == lets_list(b, n));
                    assert(lets_default(Some(z.0), n) == lets_list(z.0, n));
                    assert(t == (Stmt::Switch { discriminant, cases: a.0, default: Some(z.0) }));
                    assert(bare_default(Some(z.0)) == bare_default(default));
                    assert(lets(t, n) == lets_cases(a.0, n) + lets_default(Some(z.0), n));
                },
                None => {
                    assert(t == (Stmt::Switch { discriminant, cases: a.0, default: None }));
                    assert(lets(t, n) == lets_cases(a.0, n) + lets_default(None, n));
                },
            }
        },
        _ => {},
    }
}

proof fn lemma_cases(c: Scope, d: Set<Seq<char>>, s: Seq<(Expr, Seq<Stmt>)>, n: Seq<char>)
    ensures
        bare_cases(super::dec_cases(c, d, s).0) == bare_cases(s),
        added(
            lets_cases(s, n),
            lets_cases(super::dec_cases(c, d, s).0, n),
            d,
            super::dec_cases(c, d, s).1,
            n,
        ),
    decreases s,
{
    if s.len() > 0 {
        let a = super::dec_cases(c, d, s.drop_last());
        let b = super::dec_list(c, a.1, s.last().1);
        lemma_cases(c, d, s.drop_last(), n);
        lemma_case(c, a.1, s.last(), n);
        let t = super::dec_cases(c, d, s).0;
        assert(t == a.0.push((s.last().0, b.0)));
        assert(t.drop_last() =~= a.0);
        assert(t.last() == (s.last().0, b.0));
    }
}

proof fn lemma_case(c: Scope, d: Set<Seq<char>>, a: (Expr, Seq<Stmt>), n: Seq<char>)
    ensures
        bare_list(super::dec_list(c, d, a.1).0) == bare_list(a.1),
        added(
            lets_list(a.1, n),
            lets_list(super::dec_list(c, d, a.1).0, n),
            d,
            super::dec_list(c, d, a.1).1,
            n,
        ),
    decreases a,
{
    lemma_only_declarations_are_added(c, d, a.1, n);
}

} // verus!
