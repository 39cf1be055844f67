//! Unread temporaries.
//!
//! Hermes copies call arguments into consecutive registers before a call. Once the call is
//! rebuilt from the source registers, the copies are read nowhere. A binding is dropped when its
//! name is one that the decompiler made up, its value is a plain copy or a scalar, and nothing
//! reads it. So behaviour is unchanged, and no string or structure is lost from the output.

use crate::ir::cloning::{clone_opt_expr, clone_opt_stmt, clone_opt_text};
use crate::ir::effects;
use crate::ir::model;
use crate::ir::model::{Expr, Stmt, Target, Val};
use crate::ir::occurs;
use crate::ir::occurs::{Atom, Occurrence};
use crate::ir::{AssignTarget, Constant, Expression, Statement, Value};
use crate::text;
use vstd::prelude::*;

verus! {

/// A value that carries no data: a copy of another binding, a scalar constant, or a member of
/// such a value.
pub open spec fn trivial(e: Expr) -> bool
    decreases e,
{
    match e {
        Expr::Value(Val::Variable(_)) => true,
        Expr::Value(Val::Register(_)) => true,
        Expr::Value(Val::Parameter(_)) => true,
        Expr::Value(Val::This) => true,
        Expr::Value(Val::Constant(c)) => !(c is String) && !(c is BigInt),
        Expr::Member { object, .. } => trivial(*object),
        _ => false,
    }
}

pub fn is_trivial_value(e: &Expression) -> (r: bool)
    ensures
        r == trivial(e@),
    decreases e,
{
    match e {
        Expression::Value(Value::Variable(_)) => true,
        Expression::Value(Value::Register(_)) => true,
        Expression::Value(Value::Parameter(_)) => true,
        Expression::Value(Value::This) => true,
        Expression::Value(Value::Constant(Constant::String(_))) => false,
        Expression::Value(Value::Constant(Constant::BigInt(_))) => false,
        Expression::Value(Value::Constant(_)) => true,
        Expression::Member { object, .. } => is_trivial_value(object),
        _ => false,
    }
}

/// `prefix` with only digits, or nothing, behind it.
pub open spec fn numbered_from(name: Seq<char>, prefix: Seq<char>) -> bool {
    match text::after_prefix(name, prefix) {
        Some(rest) => text::all_digits(rest),
        None => false,
    }
}

fn is_numbered_from(name: &str, prefix: &str) -> (r: bool)
    ensures
        r == numbered_from(name@, prefix@),
{
    match text::strip_prefix(name, prefix) {
        Some(rest) => text::is_all_digits(&rest),
        None => false,
    }
}

/// A name that the decompiler made up for a register or a temporary.
pub open spec fn generic_temp(name: Seq<char>) -> bool {
    ||| numbered_from(name, "tmp"@)
    ||| numbered_from(name, "num"@)
    ||| numbered_from(name, "str"@)
    ||| numbered_from(name, "val"@)
    ||| numbered_from(name, "bool"@)
    ||| numbered_from(name, "obj"@)
    ||| numbered_from(name, "arr"@)
    ||| name.len() > 1 && numbered_from(name, "r"@)
}

pub fn is_generic_temp(name: &str) -> (r: bool)
    ensures
        r == generic_temp(name@),
{
    is_numbered_from(name, "tmp") || is_numbered_from(name, "num") || is_numbered_from(name, "str")
        || is_numbered_from(name, "val") || is_numbered_from(name, "bool") || is_numbered_from(
        name,
        "obj",
    ) || is_numbered_from(name, "arr") || (name.unicode_len() > 1 && is_numbered_from(name, "r"))
}

/// Whether nothing reads a variable.
pub open spec fn unread(reads: Seq<Atom>, name: Seq<char>) -> bool {
    !reads.contains(Atom::Use(Val::Variable(name)))
}

/// Whether the binding of `name` to `value` can go.
pub open spec fn dead_binding(reads: Seq<Atom>, name: Seq<char>, value: Expr) -> bool {
    generic_temp(name) && unread(reads, name) && !effects::effects(value) && trivial(value)
}

fn is_dead_binding(reads: &Vec<Occurrence>, name: &str, value: &Expression) -> (r: bool)
    ensures
        r == dead_binding(occurs::occs(reads@), name@, value@),
{
    is_generic_temp(name) && !occurs::has(
        reads,
        &Occurrence::Use(Value::Variable(name.to_owned())),
    ) && !value.has_side_effects() && is_trivial_value(value)
}

/// Whether a statement is a binding that can go.
pub open spec fn dead_stmt(reads: Seq<Atom>, s: Stmt) -> bool {
    match s {
        Stmt::Let { name, value, .. } => dead_binding(reads, name, value),
        Stmt::Assign { target: Target::Variable(name), value } => dead_binding(reads, name, value),
        _ => false,
    }
}

fn is_dead_stmt(reads: &Vec<Occurrence>, s: &Statement) -> (r: bool)
    ensures
        r == dead_stmt(occurs::occs(reads@), s@),
{
    match s {
        Statement::Let { name, value, .. } => is_dead_binding(reads, name, value),
        Statement::Assign { target: AssignTarget::Variable(name), value } => is_dead_binding(
            reads,
            name,
            value,
        ),
        _ => false,
    }
}

/// The statements without dead bindings, nested bodies included.
pub open spec fn stripped(reads: Seq<Atom>, s: Seq<Stmt>) -> Seq<Stmt>
    decreases s,
{
    if s.len() == 0 {
        Seq::empty()
    } else if dead_stmt(reads, s.last()) {
        stripped(reads, s.drop_last())
    } else {
        stripped(reads, s.drop_last()).push(stripped_nested(reads, s.last()))
    }
}

/// A statement with the dead bindings in its nested bodies dropped.
pub open spec fn stripped_nested(reads: Seq<Atom>, s: Stmt) -> Stmt
    decreases s,
{
    match s {
        Stmt::If { condition, then_body, else_body } => Stmt::If {
            condition,
            then_body: stripped(reads, then_body),
            else_body: stripped(reads, else_body),
        },
        Stmt::While { condition, body } => Stmt::While {
            condition,
            body: stripped(reads, body),
        },
        Stmt::DoWhile { body, condition } => Stmt::DoWhile {
            body: stripped(reads, body),
            condition,
        },
        Stmt::For { init, condition, update, body } => Stmt::For {
            init,
            condition,
            update,
            body: stripped(reads, body),
        },
        Stmt::ForIn { variable, object, body } => Stmt::ForIn {
            variable,
            object,
            body: stripped(reads, body),
        },
        Stmt::ForOf { variable, iterable, body } => Stmt::ForOf {
            variable,
            iterable,
            body: stripped(reads, body),
        },
        Stmt::Block(body) => Stmt::Block(stripped(reads, body)),
        Stmt::TryCatch { try_body, catch_param, catch_body, finally_body } => Stmt::TryCatch {
            try_body: stripped(reads, try_body),
            catch_param,
            catch_body: stripped(reads, catch_body),
            finally_body: stripped(reads, finally_body),
        },
        Stmt::Switch { discriminant, cases, default } => Stmt::Switch {
            discriminant,
            cases: stripped_nested_cases(reads, cases),
            default: stripped_nested_default(reads, default),
        },
        _ => s,
    }
}

pub open spec fn stripped_nested_case(reads: Seq<Atom>, c: (Expr, Seq<Stmt>)) -> (Expr, Seq<Stmt>)
    decreases c,
{
    (c.0, stripped(reads, c.1))
}

pub open spec fn stripped_nested_cases(reads: Seq<Atom>, s: Seq<(Expr, Seq<Stmt>)>) -> Seq<(Expr, Seq<Stmt>)>
    decreases s,
{
    Seq::new(
        s.len(),
        |i: int|
            if 0 <= i < s.len() {
                stripped_nested_case(reads, s[i])
            } else {
                arbitrary()
            },
    )
}

pub open spec fn stripped_nested_default(reads: Seq<Atom>, d: Option<Seq<Stmt>>) -> Option<Seq<Stmt>>
    decreases d,
{
    match d {
        Some(b) => Some(stripped(reads, b)),
        None => None,
    }
}

/// The statements after one pass, with reads counted before it.
pub open spec fn strip_pass(s: Seq<Stmt>) -> Seq<Stmt> {
    stripped(occurs::stmts_atoms(s), s)
}

/// The statements after the two passes that shallow chains of copies need.
pub open spec fn without_dead_bindings(s: Seq<Stmt>) -> Seq<Stmt> {
    strip_pass(strip_pass(s))
}

fn strip_nested(reads: &Vec<Occurrence>, s: &Statement) -> (r: Statement)
    ensures
        r@ == stripped_nested(occurs::occs(reads@), s@),
    decreases s,
{
    match s {
        Statement::If { condition, then_body, else_body } => Statement::If {
            condition: condition.clone(),
            then_body: strip(reads, then_body),
            else_body: strip(reads, else_body),
        },
        Statement::While { condition, body } => Statement::While {
            condition: condition.clone(),
            body: strip(reads, body),
        },
        Statement::DoWhile { body, condition } => Statement::DoWhile {
            body: strip(reads, body),
            condition: condition.clone(),
        },
        Statement::For { init, condition, update, body } => Statement::For {
            init: clone_opt_stmt(init),
            condition: clone_opt_expr(condition),
            update: clone_opt_stmt(update),
            body: strip(reads, body),
        },
        Statement::ForIn { variable, object, body } => Statement::ForIn {
            variable: variable.clone(),
            object: object.clone(),
            body: strip(reads, body),
        },
        Statement::ForOf { variable, iterable, body } => Statement::ForOf {
            variable: variable.clone(),
            iterable: iterable.clone(),
            body: strip(reads, body),
        },
        Statement::Block(body) => Statement::Block(strip(reads, body)),
        Statement::TryCatch { try_body, catch_param, catch_body, finally_body } => Statement::TryCatch {
            try_body: strip(reads, try_body),
            catch_param: clone_opt_text(catch_param),
            catch_body: strip(reads, catch_body),
            finally_body: strip(reads, finally_body),
        },
        Statement::Switch { discriminant, cases, default } => Statement::Switch {
            discriminant: discriminant.clone(),
            cases: strip_nested_cases(reads, cases),
            default: strip_nested_default(reads, default),
        },
        _ => s.clone(),
    }
}

fn strip_nested_cases(reads: &Vec<Occurrence>, v: &Vec<(Expression, Vec<Statement>)>) -> (r: Vec<(Expression, Vec<Statement>)>)
    ensures
        model::case_arms(r@) == stripped_nested_cases(occurs::occs(reads@), model::case_arms(v@)),
    decreases v,
{
    let mut out: Vec<(Expression, Vec<Statement>)> = Vec::new();
    let mut i: usize = 0;
    while i < v.len()
        invariant
            i <= v.len(),
            out.len() == i,
            forall|k: int|
                0 <= k < i ==> model::case_arm(#[trigger] out@[k]) == stripped_nested_case(
                    occurs::occs(reads@), model::case_arm(v@[k]),
                ),
        decreases v.len() - i,
    {
        out.push((v[i].0.clone(), strip(reads, &v[i].1)));
        i += 1;
    }
    assert(model::case_arms(out@) =~= stripped_nested_cases(occurs::occs(reads@), model::case_arms(v@)));
    out
}

fn strip_nested_default(reads: &Vec<Occurrence>, d: &Option<Vec<Statement>>) -> (r: Option<Vec<Statement>>)
    ensures
        model::opt_stmts(r) == stripped_nested_default(occurs::occs(reads@), model::opt_stmts(*d)),
    decreases d,
{
    match d {
        Some(b) => Some(strip(reads, b)),
        None => None,
    }
}

fn strip(reads: &Vec<Occurrence>, v: &Vec<Statement>) -> (r: Vec<Statement>)
    ensures
        model::stmts(r@) == stripped(occurs::occs(reads@), model::stmts(v@)),
    decreases v,
{
    let ghost all = model::stmts(v@);
    let ghost known = occurs::occs(reads@);
    let mut out: Vec<Statement> = Vec::new();
    let mut i: usize = 0;
    assert(model::stmts(out@) =~= Seq::empty());
    while i < v.len()
        invariant
            i <= v.len(),
            all == model::stmts(v@),
            known == occurs::occs(reads@),
            model::stmts(out@) == stripped(known, all.take(i as int)),
        decreases v.len() - i,
    {
        assert(all.take(i + 1).drop_last() =~= all.take(i as int));
        assert(all[i as int] == v@[i as int]@);
        let ghost before = out@;
        if !is_dead_stmt(reads, &v[i]) {
            out.push(strip_nested(reads, &v[i]));
            assert(model::stmts(out@) =~= model::stmts(before).push(out@.last()@));
        }
        i += 1;
    }
    assert(all.take(all.len() as int) =~= all);
    out
}

/// Drops unread copies into made-up temporaries.
pub fn remove_dead_temp_bindings(stmts: Vec<Statement>) -> (r: Vec<Statement>)
    ensures
        model::stmts(r@) == without_dead_bindings(model::stmts(stmts@)),
{
    let once = strip(&occurs::of_stmts(&stmts), &stmts);
    strip(&occurs::of_stmts(&once), &once)
}

/// A statement is dropped only where it binds a made-up name to a value without side effects
/// that carries no data.
pub proof fn lemma_only_plain_temporaries_go(reads: Seq<Atom>, s: Stmt)
    requires
        dead_stmt(reads, s),
    ensures
        s matches Stmt::Let { name, value, .. } ==> generic_temp(name) && unread(reads, name)
            && !effects::effects(value) && trivial(value),
        s is Let || s matches Stmt::Assign { target: Target::Variable(_), .. },
{
}

/// What is read stays: a list in which every made-up name is read is left as long as it was.
pub proof fn lemma_read_bindings_stay(reads: Seq<Atom>, s: Seq<Stmt>)
    requires
        forall|i: int| 0 <= i < s.len() ==> !dead_stmt(reads, #[trigger] s[i]),
    ensures
        stripped(reads, s).len() == s.len(),
        forall|i: int|
            0 <= i < s.len() ==> #[trigger] stripped(reads, s)[i] == stripped_nested(reads, s[i]),
    decreases s.len(),
{
    if s.len() > 0 {
        let d = s.drop_last();
        assert forall|i: int| 0 <= i < d.len() implies !dead_stmt(reads, #[trigger] d[i]) by {
            assert(d[i] == s[i]);
        }
        lemma_read_bindings_stay(reads, d);
        assert(!dead_stmt(reads, s[s.len() - 1]));
    }
}

} // verus!
