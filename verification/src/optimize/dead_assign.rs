//! Dead stores in straight-line code.
//!
//! A store is dead where a later store to the same place comes before anything reads it. The
//! search for that store ends at the first statement with control flow of its own.

use super::dead_bindings;
use super::dead_bindings::is_trivial_value;
use crate::ir::effects;
use crate::ir::model;
use crate::ir::model::{Expr, Stmt, Target, Val};
use crate::ir::occurs;
use crate::ir::occurs::{Atom, Occurrence};
use crate::ir::{AssignTarget, Constant, Expression, Statement, Value};
use vstd::prelude::*;

verus! {

/// A place that a store writes and a later store can overwrite. Member stores may alias, so they
/// are none.
pub enum Place {
    Register(u32),
    Variable(String),
}

/// The mathematical model of a [`Place`].
#[verifier::ext_equal]
pub enum Loc {
    Register(u32),
    Variable(Seq<char>),
}

impl Place {
    pub open spec fn view(&self) -> Loc {
        match self {
            Place::Register(r) => Loc::Register(*r),
            Place::Variable(n) => Loc::Variable(n@),
        }
    }
}

/// The place that a store writes.
pub open spec fn stored(t: Target) -> Option<Loc> {
    match t {
        Target::Register(r) => Some(Loc::Register(r)),
        Target::Variable(n) => Some(Loc::Variable(n)),
        _ => None,
    }
}

fn target_key(t: &AssignTarget) -> (r: Option<Place>)
    ensures
        match r {
            Some(p) => stored(t@) == Some(p@),
            None => stored(t@) is None,
        },
{
    match t {
        AssignTarget::Register(r) => Some(Place::Register(*r)),
        AssignTarget::Variable(n) => Some(Place::Variable(n.clone())),
        _ => None,
    }
}

/// A statement without control flow of its own.
pub open spec fn straight_line(s: Stmt) -> bool {
    s is Assign || s is Expr || s is Let
}

fn is_straight_line(s: &Statement) -> (r: bool)
    ensures
        r == straight_line(s@),
{
    match s {
        Statement::Assign { .. } | Statement::Expr(_) | Statement::Let { .. } => true,
        _ => false,
    }
}

/// Whether a statement reads a place.
pub open spec fn reads_loc(s: Stmt, l: Loc) -> bool {
    match l {
        Loc::Register(r) => occurs::stmt_atoms(s).contains(Atom::Use(Val::Register(r))),
        Loc::Variable(n) => occurs::stmt_atoms(s).contains(Atom::Use(Val::Variable(n))),
    }
}

fn uses_key(s: &Statement, p: &Place) -> (r: bool)
    ensures
        r == reads_loc(s@, p@),
{
    let all = occurs::of_stmt(s);
    match p {
        Place::Register(r) => occurs::has(&all, &Occurrence::Use(Value::Register(*r))),
        Place::Variable(n) => occurs::has(&all, &Occurrence::Use(Value::Variable(n.clone()))),
    }
}

/// Whether a statement stores to a place.
pub open spec fn overwrites_loc(s: Stmt, l: Loc) -> bool {
    match s {
        Stmt::Assign { target, .. } => stored(target) == Some(l),
        Stmt::Let { name, .. } => l == Loc::Variable(name),
        _ => false,
    }
}

fn overwrites(s: &Statement, p: &Place) -> (r: bool)
    ensures
        r == overwrites_loc(s@, p@),
{
    match (s, p) {
        (
            Statement::Assign { target: AssignTarget::Register(r), .. },
            Place::Register(k),
        ) => *r == *k,
        (
            Statement::Assign { target: AssignTarget::Variable(n), .. },
            Place::Variable(k),
        ) => *n == *k,
        (Statement::Let { name, .. }, Place::Variable(k)) => *name == *k,
        _ => false,
    }
}

/// Whether, from position `i` on, the place is stored to before a statement reads it or has
/// control flow of its own.
pub open spec fn overwritten(s: Seq<Stmt>, i: int, l: Loc) -> bool
    decreases s.len() - i,
{
    if i < 0 || i >= s.len() || !straight_line(s[i]) || reads_loc(s[i], l) {
        false
    } else {
        overwrites_loc(s[i], l) || overwritten(s, i + 1, l)
    }
}

fn overwritten_before_read(v: &Vec<Statement>, start: usize, p: &Place) -> (r: bool)
    requires
        start <= v@.len(),
    ensures
        r == overwritten(model::stmts(v@), start as int, p@),
{
    let ghost all = model::stmts(v@);
    let mut i: usize = start;
    while i < v.len()
        invariant
            i <= v.len(),
            all == model::stmts(v@),
            overwritten(all, start as int, p@) == overwritten(all, i as int, p@),
        decreases v.len() - i,
    {
        assert(all[i as int] == v@[i as int]@);
        if !is_straight_line(&v[i]) || uses_key(&v[i], p) {
            return false;
        }
        if overwrites(&v[i], p) {
            return true;
        }
        i += 1;
    }
    false
}

/// Whether the statement at `i` is a store whose value nothing reads.
pub open spec fn dead_store(s: Seq<Stmt>, i: int) -> bool {
    match s[i] {
        Stmt::Assign { target, .. } => match stored(target) {
            Some(l) => overwritten(s, i + 1, l),
            None => false,
        },
        _ => false,
    }
}

fn is_dead_store(v: &Vec<Statement>, i: usize) -> (r: bool)
    requires
        i < v.len(),
    ensures
        r == dead_store(model::stmts(v@), i as int),
{
    assert(model::stmts(v@)[i as int] == v@[i as int]@);
    if let Statement::Assign { target, .. } = &v[i] {
        match target_key(target) {
            Some(p) => overwritten_before_read(v, i + 1, &p),
            None => false,
        }
    } else {
        false
    }
}

/// A literal that holds data: an object, an array, a string or a big integer.
pub open spec fn literal_data(e: Expr) -> bool {
    match e {
        Expr::Object { .. } => true,
        Expr::Array { .. } => true,
        Expr::Value(Val::Constant(c)) => c is String || c is BigInt,
        _ => false,
    }
}

fn is_literal_data(e: &Expression) -> (r: bool)
    ensures
        r == literal_data(e@),
{
    match e {
        Expression::Object { .. } => true,
        Expression::Array { .. } => true,
        Expression::Value(Value::Constant(Constant::String(_))) => true,
        Expression::Value(Value::Constant(Constant::BigInt(_))) => true,
        _ => false,
    }
}

/// What is left of a dead store: nothing of a plain copy or a scalar, the whole store of a value
/// that carries data or does nothing, and of any other value the value alone.
pub open spec fn remains(s: Stmt) -> Seq<Stmt> {
    match s {
        Stmt::Assign { value, .. } => if dead_bindings::trivial(value) && !effects::effects(value) {
            Seq::empty()
        } else if literal_data(value) || !effects::effects(value) {
            seq![s]
        } else {
            seq![Stmt::Expr(value)]
        },
        _ => seq![s],
    }
}

/// The first `n` statements without dead stores.
pub open spec fn live_prefix(s: Seq<Stmt>, n: int) -> Seq<Stmt>
    decreases s, n,
{
    if n <= 0 || n > s.len() {
        Seq::empty()
    } else if dead_store(s, n - 1) {
        live_prefix(s, n - 1) + remains(s[n - 1])
    } else {
        live_prefix(s, n - 1).push(live_nested(s[n - 1]))
    }
}

/// The statements without dead stores.
pub open spec fn live(s: Seq<Stmt>) -> Seq<Stmt>
    decreases s, s.len() + 1,
{
    live_prefix(s, s.len() as int)
}

/// A statement with the dead stores in its branches, `while` bodies and blocks removed.
pub open spec fn live_nested(s: Stmt) -> Stmt
    decreases s, 0nat,
{
    match s {
        Stmt::If { condition, then_body, else_body } => Stmt::If {
            condition,
            then_body: live(then_body),
            else_body: live(else_body),
        },
        Stmt::While { condition, body } => Stmt::While {
            condition,
            body: live(body),
        },
        Stmt::Block(body) => Stmt::Block(live(body)),
        _ => s,
    }
}

fn remove_in_nested(s: &Statement) -> (r: Statement)
    ensures
        r@ == live_nested(s@),
    decreases s, 0nat,
{
    match s {
        Statement::If { condition, then_body, else_body } => Statement::If {
            condition: condition.clone(),
            then_body: remove_dead_assignments_in(then_body),
            else_body: remove_dead_assignments_in(else_body),
        },
        Statement::While { condition, body } => Statement::While {
            condition: condition.clone(),
            body: remove_dead_assignments_in(body),
        },
        Statement::Block(body) => Statement::Block(remove_dead_assignments_in(body)),
        _ => s.clone(),
    }
}

fn remove_dead_assignments_in(v: &Vec<Statement>) -> (r: Vec<Statement>)
    ensures
        model::stmts(r@) == live(model::stmts(v@)),
    decreases v, 1nat,
{
    let ghost all = model::stmts(v@);
    let mut out: Vec<Statement> = Vec::new();
    let mut i: usize = 0;
    assert(model::stmts(out@) =~= Seq::empty());
    while i < v.len()
        invariant
            i <= v.len(),
            all == model::stmts(v@),
            model::stmts(out@) == live_prefix(all, i as int),
        decreases v.len() - i,
    {
        assert(all[i as int] == v@[i as int]@);
        let ghost before = out@;
        if is_dead_store(v, i) {
            if let Statement::Assign { value, .. } = &v[i] {
                if is_trivial_value(value) && !value.has_side_effects() {
                    assert(model::stmts(out@) =~= model::stmts(before) + Seq::empty());
                } else {
                    if is_literal_data(value) || !value.has_side_effects() {
                        out.push(v[i].clone());
                    } else {
                        out.push(Statement::Expr(value.clone()));
                    }
                    assert(model::stmts(out@) =~= model::stmts(before) + seq![out@.last()@]);
                }
            }
        } else {
            out.push(remove_in_nested(&v[i]));
            assert(model::stmts(out@) =~= model::stmts(before).push(out@.last()@));
        }
        i += 1;
    }
    out
}

/// Removes dead stores. A dead store of a call keeps the call.
pub fn remove_dead_assignments(stmts: Vec<Statement>) -> (r: Vec<Statement>)
    ensures
        model::stmts(r@) == live(model::stmts(stmts@)),
{
    remove_dead_assignments_in(&stmts)
}

/// A dead store never takes a side effect with it: what remains of one whose value has side
/// effects still evaluates that value.
pub proof fn lemma_side_effects_remain(s: Stmt)
    requires
        s matches Stmt::Assign { value, .. } && effects::effects(value),
    ensures
        remains(s).len() == 1,
        remains(s)[0] == s || (s matches Stmt::Assign { value, .. } && remains(s)[0] == Stmt::Expr(
            value,
        )),
{
}

/// The last statement of a list is never a dead store.
pub proof fn lemma_last_store_is_live(s: Seq<Stmt>)
    requires
        s.len() > 0,
    ensures
        !dead_store(s, s.len() - 1),
{
}

} // verus!
