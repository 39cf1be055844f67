//! The Metro module registry.
//!
//! A bundle's entry function ends with one `__d(factory, moduleId, [deps])` call per module. The
//! modules are written out by themselves, so a long run of these registrations is replaced by a
//! single comment; the `__r(..)` calls that follow are left as they are.

use crate::ir::model;
use crate::ir::model::{Const, Expr, Key, Stmt, Val};
use crate::ir::{Constant, Expression, PropertyKey, Statement, Value};
use crate::text;
use vstd::prelude::*;

verus! {

/// Only a run at least this long is collapsed.
pub const MIN_RUN: usize = 16;

/// Whether an expression names Metro's define function, by itself or as a member.
pub open spec fn names_define(e: Expr) -> bool {
    match e {
        Expr::Value(Val::Variable(n)) => n == "__d"@,
        Expr::Member { property: Key::Ident(p), .. } => p == "__d"@,
        Expr::Member { property: Key::String(p), .. } => p == "__d"@,
        _ => false,
    }
}

fn callee_is_define(e: &Expression) -> (r: bool)
    ensures
        r == names_define(e@),
{
    proof {
        reveal_with_fuel(Expression::view, 2);
        reveal_with_fuel(PropertyKey::view, 2);
    }
    match e {
        Expression::Value(Value::Variable(n)) => text::same(n, "__d"),
        Expression::Member { property: PropertyKey::Ident(p), .. } => text::same(p, "__d"),
        Expression::Member { property: PropertyKey::String(p), .. } => text::same(p, "__d"),
        _ => false,
    }
}

pub open spec fn integer_at(args: Seq<Expr>, i: int) -> bool {
    i < args.len() && (args[i] matches Expr::Value(Val::Constant(Const::Integer(_))))
}

fn is_integer_at(args: &Vec<Expression>, i: usize) -> (r: bool)
    ensures
        r == integer_at(model::exprs(args@), i as int),
{
    if i < args.len() {
        assert(model::exprs(args@)[i as int] == args@[i as int]@);
        match &args[i] {
            Expression::Value(Value::Constant(Constant::Integer(_))) => true,
            _ => false,
        }
    } else {
        false
    }
}

/// Whether a statement registers a module: a bare call of `__d` whose second or third argument
/// is the module id. Some bundles put a receiver before the factory.
pub open spec fn registration(s: Stmt) -> bool {
    match s {
        Stmt::Expr(Expr::Call { callee, arguments }) => names_define(*callee) && arguments.len()
            >= 2 && (integer_at(arguments, 1) || integer_at(arguments, 2)),
        _ => false,
    }
}

/// Whether a statement registers a module.
pub fn is_module_registration(s: &Statement) -> (r: bool)
    ensures
        r == registration(s@),
{
    proof {
        reveal_with_fuel(Expression::view, 2);
        reveal_with_fuel(model::exprs, 2);
    }
    if let Statement::Expr(Expression::Call { callee, arguments }) = s {
        callee_is_define(callee) && arguments.len() >= 2 && (is_integer_at(arguments, 1)
            || is_integer_at(arguments, 2))
    } else {
        false
    }
}

/// The comment for a run of registrations.
pub open spec fn run_comment(n: nat) -> Stmt {
    Stmt::Comment(
        "Metro registry: "@ + text::decimal(n)
            + " module registrations omitted (each __d(factory, id, deps) wires a module rendered above)"@,
    )
}

/// A run of registrations as it is written: a comment where it is long.
pub open spec fn flushed(run: Seq<Stmt>) -> Seq<Stmt> {
    if run.len() >= MIN_RUN {
        seq![run_comment(run.len())]
    } else {
        run
    }
}

/// The statements written so far, and the run of registrations at their end.
pub open spec fn collapse_state(s: Seq<Stmt>) -> (Seq<Stmt>, Seq<Stmt>)
    decreases s.len(),
{
    if s.len() == 0 {
        (Seq::empty(), Seq::empty())
    } else {
        let (out, run) = collapse_state(s.drop_last());
        if registration(s.last()) {
            (out, run.push(s.last()))
        } else {
            ((out + flushed(run)).push(s.last()), Seq::empty())
        }
    }
}

/// The statements with each long run of registrations replaced by a comment.
pub open spec fn collapsed(s: Seq<Stmt>) -> Seq<Stmt> {
    collapse_state(s).0 + flushed(collapse_state(s).1)
}

fn flush(out: &mut Vec<Statement>, run: &mut Vec<Statement>)
    ensures
        model::stmts(final(out)@) == model::stmts(old(out)@) + flushed(model::stmts(old(run)@)),
        model::stmts(final(run)@) == Seq::<Stmt>::empty(),
{
    let ghost before = out@;
    let ghost whole = run@;
    if run.len() >= MIN_RUN {
        let n = text::decimal_of(run.len() as u64);
        out.push(
            Statement::Comment(
                text::concat3(
                    "Metro registry: ",
                    &n,
                    " module registrations omitted (each __d(factory, id, deps) wires a module rendered above)",
                ),
            ),
        );
        assert(model::stmts(out@) =~= model::stmts(before) + seq![out@.last()@]);
        *run = Vec::new();
    } else {
        out.append(run);
        assert(model::stmts(out@) =~= model::stmts(before) + model::stmts(whole));
    }
    assert(model::stmts(run@) =~= Seq::empty());
}

/// Replaces each long run of module registrations by one comment.
pub fn collapse_metro_registry(stmts: Vec<Statement>) -> (r: Vec<Statement>)
    ensures
        model::stmts(r@) == collapsed(model::stmts(stmts@)),
{
    let ghost all = model::stmts(stmts@);
    let mut out: Vec<Statement> = Vec::new();
    let mut run: Vec<Statement> = Vec::new();
    let mut i: usize = 0;
    assert(model::stmts(out@) =~= Seq::empty());
    assert(model::stmts(run@) =~= Seq::empty());
    while i < stmts.len()
        invariant
            i <= stmts.len(),
            all == model::stmts(stmts@),
            collapse_state(all.take(i as int)) == (model::stmts(out@), model::stmts(run@)),
        decreases stmts.len() - i,
    {
        assert(all.take(i + 1).drop_last() =~= all.take(i as int));
        assert(all[i as int] == stmts@[i as int]@);
        if is_module_registration(&stmts[i]) {
            let ghost before = run@;
            run.push(stmts[i].clone());
            assert(model::stmts(run@) =~= model::stmts(before).push(all[i as int]));
        } else {
            flush(&mut out, &mut run);
            let ghost before = out@;
            out.push(stmts[i].clone());
            assert(model::stmts(out@) =~= model::stmts(before).push(all[i as int]));
        }
        i += 1;
    }
    assert(all.take(all.len() as int) =~= all);
    flush(&mut out, &mut run);
    out
}

/// Statements without a registration are left as they are.
pub proof fn lemma_without_registrations(s: Seq<Stmt>)
    requires
        forall|i: int| 0 <= i < s.len() ==> !registration(#[trigger] s[i]),
    ensures
        collapsed(s) == s,
        collapse_state(s) == (s, Seq::<Stmt>::empty()),
    decreases s.len(),
{
    if s.len() > 0 {
        let d = s.drop_last();
        assert forall|i: int| 0 <= i < d.len() implies !registration(#[trigger] d[i]) by {
            assert(d[i] == s[i]);
        }
        lemma_without_registrations(d);
        assert(!registration(s[s.len() - 1]));
        assert((d + flushed(Seq::empty())).push(s.last()) =~= s);
    }
    assert(s + flushed(Seq::empty()) =~= s);
}

/// A list that is nothing but registrations becomes one comment with their number where it is
/// long, and is left alone where it is short.
pub proof fn lemma_registrations_alone(s: Seq<Stmt>)
    requires
        forall|i: int| 0 <= i < s.len() ==> registration(#[trigger] s[i]),
    ensures
        collapse_state(s) == (Seq::<Stmt>::empty(), s),
        s.len() >= MIN_RUN ==> collapsed(s) == seq![run_comment(s.len())],
        s.len() < MIN_RUN ==> collapsed(s) == s,
    decreases s.len(),
{
    if s.len() > 0 {
        let d = s.drop_last();
        assert forall|i: int| 0 <= i < d.len() implies registration(#[trigger] d[i]) by {
            assert(d[i] == s[i]);
        }
        lemma_registrations_alone(d);
        assert(registration(s[s.len() - 1]));
        assert(d.push(s.last()) =~= s);
    } else {
        assert(s =~= Seq::<Stmt>::empty());
    }
    assert(Seq::<Stmt>::empty() + flushed(s) =~= flushed(s));
}

/// Whether a statement is neither a comment nor a call of `__d` with a module id.
pub open spec fn other_work(s: Stmt) -> bool {
    match s {
        Stmt::Comment(_) => false,
        Stmt::Expr(Expr::Call { callee, arguments }) => !(match *callee {
            Expr::Value(Val::Variable(n)) => n == "__d"@,
            Expr::Member { property: Key::Ident(p), .. } => p == "__d"@,
            Expr::Member { property: Key::String(p), .. } => p == "__d"@,
            _ => false,
        } && (is_id(arguments, 1) || is_id(arguments, 2))),
        _ => true,
    }
}

pub open spec fn is_id(args: Seq<Expr>, i: int) -> bool {
    i < args.len() && match args[i] {
        Expr::Value(Val::Constant(Const::Integer(_))) => true,
        _ => false,
    }
}

/// The statements that are neither registrations nor comments, in order.
pub open spec fn works(s: Seq<Stmt>) -> Seq<Stmt>
    decreases s.len(),
{
    if s.len() == 0 {
        Seq::empty()
    } else if other_work(s.last()) {
        works(s.drop_last()).push(s.last())
    } else {
        works(s.drop_last())
    }
}

proof fn lemma_works_join(s: Seq<Stmt>, t: Seq<Stmt>)
    ensures
        works(s + t) == works(s) + works(t),
    decreases t.len(),
{
    if t.len() == 0 {
        assert(s + t =~= s);
    } else {
        lemma_works_join(s, t.drop_last());
        assert((s + t).drop_last() =~= s + t.drop_last());
        assert((s + t).last() == t.last());
        if other_work(t.last()) {
            assert((works(s) + works(t.drop_last())).push(t.last()) =~= works(s) + works(
                t.drop_last(),
            ).push(t.last()));
        }
    }
}

proof fn lemma_run_works(s: Seq<Stmt>)
    ensures
        works(flushed(collapse_state(s).1)) == Seq::<Stmt>::empty(),
        works(collapse_state(s).1) == Seq::<Stmt>::empty(),
        works(collapse_state(s).0) == works(s),
    decreases s.len(),
{
    let run = collapse_state(s).1;
    let none = Seq::<Stmt>::empty();
    assert(works(none) == none);
    if s.len() > 0 {
        let (out, before) = collapse_state(s.drop_last());
        lemma_run_works(s.drop_last());
        assert(registration(s.last()) || s.last() is Comment <==> !other_work(s.last()));
        if registration(s.last()) {
            assert(run.drop_last() =~= before);
            assert(run.last() == s.last());
        } else {
            let all = out + flushed(before);
            lemma_works_join(out, flushed(before));
            assert(works(out) + none =~= works(out));
            assert(all.push(s.last()).drop_last() =~= all);
            assert(all.push(s.last()).last() == s.last());
        }
    }
    assert(seq![run_comment(run.len())].drop_last() =~= none);
    assert(works(seq![run_comment(run.len())]) == none);
}

/// Collapsing registrations keeps every other statement, in order.
pub proof fn lemma_other_work_stays(s: Seq<Stmt>)
    ensures
        works(collapsed(s)) == works(s),
{
    lemma_run_works(s);
    lemma_works_join(collapse_state(s).0, flushed(collapse_state(s).1));
    assert(works(s) + Seq::<Stmt>::empty() =~= works(s));
}

} // verus!
