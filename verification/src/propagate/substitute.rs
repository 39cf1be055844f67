//! Replaces registers by the values they hold.

use crate::ir::cfg;
use crate::ir::cfg::{BlockId, Term, Terminator};
use crate::ir::model;
use crate::ir::model::{Const, Expr, Key, Prop, Stmt, Target, Val};
use crate::ir::{
    AssignTarget, Constant, Expression, ObjectProperty, PropertyKey, Statement, Value,
};
use std::collections::BTreeMap;
use vstd::prelude::*;

verus! {

/// The model of the values that registers hold.
pub open spec fn held(m: Map<u32, Expression>) -> Map<u32, Expr> {
    m.map_values(|e: Expression| e@)
}

/// An expression with registers replaced by the values they hold.
pub open spec fn subst_expr(e: Expr, m: Map<u32, Expr>) -> Expr
    decreases e,
{
    match e {
        Expr::Value(Val::Register(r)) => if m.dom().contains(r) {
            m[r]
        } else {
            e
        },
        Expr::Binary { op, left, right } => Expr::Binary {
            op,
            left: Box::new(subst_expr(*left, m)),
            right: Box::new(subst_expr(*right, m)),
        },
        Expr::Unary { op, operand } => Expr::Unary {
            op,
            operand: Box::new(subst_expr(*operand, m)),
        },
        Expr::Call { callee, arguments } => Expr::Call {
            callee: Box::new(subst_expr(*callee, m)),
            arguments: subst_exprs(arguments, m),
        },
        Expr::New { callee, arguments } => Expr::New {
            callee: Box::new(subst_expr(*callee, m)),
            arguments: subst_exprs(arguments, m),
        },
        Expr::Member { object, property, optional } => Expr::Member {
            object: Box::new(subst_expr(*object, m)),
            property: subst_key(property, m),
            optional,
        },
        Expr::Array { elements } => Expr::Array { elements: subst_elements(elements, m) },
        Expr::Object { properties } => Expr::Object { properties: subst_props(properties, m) },
        Expr::Conditional { condition, then_expr, else_expr } => Expr::Conditional {
            condition: Box::new(subst_expr(*condition, m)),
            then_expr: Box::new(subst_expr(*then_expr, m)),
            else_expr: Box::new(subst_expr(*else_expr, m)),
        },
        Expr::Assignment { target, value } => Expr::Assignment {
            target: Box::new(subst_expr(*target, m)),
            value: Box::new(subst_expr(*value, m)),
        },
        Expr::Spread(x) => Expr::Spread(Box::new(subst_expr(*x, m))),
        _ => e,
    }
}

/// The key that a computed key stands for: a whole number is an index.
pub open spec fn computed_key(e: Expr) -> Key {
    match e {
        Expr::Value(Val::Constant(Const::Integer(n))) => Key::Index(n as i64),
        Expr::Value(Val::Constant(Const::Number(n))) => match n.integral {
            Some(i) => Key::Index(i),
            None => Key::Computed(Box::new(e)),
        },
        _ => Key::Computed(Box::new(e)),
    }
}

pub open spec fn subst_key(k: Key, m: Map<u32, Expr>) -> Key
    decreases k,
{
    match k {
        Key::Computed(e) => computed_key(subst_expr(*e, m)),
        _ => k,
    }
}

pub open spec fn subst_exprs(s: Seq<Expr>, m: Map<u32, Expr>) -> Seq<Expr>
    decreases s,
{
    Seq::new(
        s.len(),
        |i: int|
            if 0 <= i < s.len() {
                subst_expr(s[i], m)
            } else {
                arbitrary()
            },
    )
}

pub open spec fn subst_element(o: Option<Expr>, m: Map<u32, Expr>) -> Option<Expr>
    decreases o,
{
    match o {
        Some(e) => Some(subst_expr(e, m)),
        None => None,
    }
}

pub open spec fn subst_elements(s: Seq<Option<Expr>>, m: Map<u32, Expr>) -> Seq<Option<Expr>>
    decreases s,
{
    Seq::new(
        s.len(),
        |i: int|
            if 0 <= i < s.len() {
                subst_element(s[i], m)
            } else {
                arbitrary()
            },
    )
}

pub open spec fn subst_prop(p: Prop, m: Map<u32, Expr>) -> Prop
    decreases p,
{
    Prop { key: subst_key(p.key, m), value: subst_expr(p.value, m) }
}

pub open spec fn subst_props(s: Seq<Prop>, m: Map<u32, Expr>) -> Seq<Prop>
    decreases s,
{
    Seq::new(
        s.len(),
        |i: int|
            if 0 <= i < s.len() {
                subst_prop(s[i], m)
            } else {
                arbitrary()
            },
    )
}

/// A target with registers replaced in the places that it reads.
pub open spec fn subst_target(t: Target, m: Map<u32, Expr>) -> Target {
    match t {
        Target::Index { object, key } => Target::Index {
            object: subst_expr(object, m),
            key: subst_expr(key, m),
        },
        Target::Member { object, property } => Target::Member {
            object: subst_expr(object, m),
            property,
        },
        _ => t,
    }
}

/// A plain statement with registers replaced in what it reads.
pub open spec fn subst_stmt(s: Stmt, m: Map<u32, Expr>) -> Stmt {
    match s {
        Stmt::Expr(e) => Stmt::Expr(subst_expr(e, m)),
        Stmt::Let { name, value, kind } => Stmt::Let { name, value: subst_expr(value, m), kind },
        Stmt::Assign { target, value } => Stmt::Assign {
            target: subst_target(target, m),
            value: subst_expr(value, m),
        },
        Stmt::Return(Some(e)) => Stmt::Return(Some(subst_expr(e, m))),
        Stmt::Throw(e) => Stmt::Throw(subst_expr(e, m)),
        _ => s,
    }
}

pub open spec fn subst_arms(s: Seq<(Expr, BlockId)>, m: Map<u32, Expr>) -> Seq<(Expr, BlockId)> {
    s.map_values(|c: (Expr, BlockId)| (subst_expr(c.0, m), c.1))
}

/// A terminator with registers replaced in what it reads.
pub open spec fn subst_term(t: Term, m: Map<u32, Expr>) -> Term {
    match t {
        Term::Branch { condition, true_target, false_target } => Term::Branch {
            condition: subst_expr(condition, m),
            true_target,
            false_target,
        },
        Term::Return(Some(e)) => Term::Return(Some(subst_expr(e, m))),
        Term::Throw(e) => Term::Throw(subst_expr(e, m)),
        Term::Switch { value, cases, default } => Term::Switch {
            value: subst_expr(value, m),
            cases: subst_arms(cases, m),
            default,
        },
        _ => t,
    }
}

/// Replaces registers in an expression.
pub fn substitute_expr(e: &Expression, copies: &BTreeMap<u32, Expression>) -> (r: Expression)
    ensures
        r@ == subst_expr(e@, held(copies@)),
    decreases e,
{
    broadcast use vstd::std_specs::btree::group_btree_axioms;

    match e {
        Expression::Value(Value::Register(n)) => match copies.get(n) {
            Some(v) => {
                assert(held(copies@)[*n] == v@);
                v.clone()
            },
            None => e.clone(),
        },
        Expression::Binary { op, left, right } => Expression::Binary {
            op: *op,
            left: Box::new(substitute_expr(left, copies)),
            right: Box::new(substitute_expr(right, copies)),
        },
        Expression::Unary { op, operand } => Expression::Unary {
            op: *op,
            operand: Box::new(substitute_expr(operand, copies)),
        },
        Expression::Call { callee, arguments } => Expression::Call {
            callee: Box::new(substitute_expr(callee, copies)),
            arguments: substitute_exprs(arguments, copies),
        },
        Expression::New { callee, arguments } => Expression::New {
            callee: Box::new(substitute_expr(callee, copies)),
            arguments: substitute_exprs(arguments, copies),
        },
        Expression::Member { object, property, optional } => Expression::Member {
            object: Box::new(substitute_expr(object, copies)),
            property: substitute_property_key(property, copies),
            optional: *optional,
        },
        Expression::Array { elements } => Expression::Array {
            elements: substitute_elements(elements, copies),
        },
        Expression::Object { properties } => Expression::Object {
            properties: substitute_props(properties, copies),
        },
        Expression::Conditional { condition, then_expr, else_expr } => Expression::Conditional {
            condition: Box::new(substitute_expr(condition, copies)),
            then_expr: Box::new(substitute_expr(then_expr, copies)),
            else_expr: Box::new(substitute_expr(else_expr, copies)),
        },
        Expression::Assignment { target, value } => Expression::Assignment {
            target: Box::new(substitute_expr(target, copies)),
            value: Box::new(substitute_expr(value, copies)),
        },
        Expression::Spread(x) => Expression::Spread(Box::new(substitute_expr(x, copies))),
        _ => e.clone(),
    }
}

fn make_key(e: Expression) -> (r: PropertyKey)
    ensures
        r@ == computed_key(e@),
{
    let index: Option<i64> = match &e {
        Expression::Value(Value::Constant(Constant::Integer(n))) => Some(*n as i64),
        Expression::Value(Value::Constant(Constant::Number(n))) => n.integral,
        _ => None,
    };
    match index {
        Some(i) => PropertyKey::Index(i),
        None => PropertyKey::Computed(Box::new(e)),
    }
}

fn substitute_property_key(k: &PropertyKey, copies: &BTreeMap<u32, Expression>) -> (r: PropertyKey)
    ensures
        r@ == subst_key(k@, held(copies@)),
    decreases k,
{
    match k {
        PropertyKey::Computed(e) => make_key(substitute_expr(e, copies)),
        _ => k.clone(),
    }
}

fn substitute_exprs(v: &Vec<Expression>, copies: &BTreeMap<u32, Expression>) -> (r: Vec<Expression>)
    ensures
        model::exprs(r@) == subst_exprs(model::exprs(v@), held(copies@)),
    decreases v,
{
    let mut out: Vec<Expression> = Vec::new();
    let mut i: usize = 0;
    while i < v.len()
        invariant
            i <= v.len(),
            out.len() == i,
            forall|k: int|
                0 <= k < i ==> (#[trigger] out@[k])@ == subst_expr(v@[k]@, held(copies@)),
        decreases v.len() - i,
    {
        out.push(substitute_expr(&v[i], copies));
        i += 1;
    }
    assert(model::exprs(out@) =~= subst_exprs(model::exprs(v@), held(copies@)));
    out
}

fn substitute_element(
    o: &Option<Expression>,
    copies: &BTreeMap<u32, Expression>,
) -> (r: Option<Expression>)
    ensures
        model::opt_expr(r) == subst_element(model::opt_expr(*o), held(copies@)),
    decreases o,
{
    match o {
        Some(e) => Some(substitute_expr(e, copies)),
        None => None,
    }
}

fn substitute_elements(
    v: &Vec<Option<Expression>>,
    copies: &BTreeMap<u32, Expression>,
) -> (r: Vec<Option<Expression>>)
    ensures
        model::opt_exprs(r@) == subst_elements(model::opt_exprs(v@), held(copies@)),
    decreases v,
{
    let mut out: Vec<Option<Expression>> = Vec::new();
    let mut i: usize = 0;
    while i < v.len()
        invariant
            i <= v.len(),
            out.len() == i,
            forall|k: int|
                0 <= k < i ==> model::opt_expr(#[trigger] out@[k]) == subst_element(
                    model::opt_expr(v@[k]),
                    held(copies@),
                ),
        decreases v.len() - i,
    {
        out.push(substitute_element(&v[i], copies));
        i += 1;
    }
    assert(model::opt_exprs(out@) =~= subst_elements(model::opt_exprs(v@), held(copies@)));
    out
}

fn substitute_props(
    v: &Vec<ObjectProperty>,
    copies: &BTreeMap<u32, Expression>,
) -> (r: Vec<ObjectProperty>)
    ensures
        model::props(r@) == subst_props(model::props(v@), held(copies@)),
    decreases v,
{
    let mut out: Vec<ObjectProperty> = Vec::new();
    let mut i: usize = 0;
    while i < v.len()
        invariant
            i <= v.len(),
            out.len() == i,
            forall|k: int|
                0 <= k < i ==> (#[trigger] out@[k])@ == subst_prop(v@[k]@, held(copies@)),
        decreases v.len() - i,
    {
        out.push(
            ObjectProperty {
                key: substitute_property_key(&v[i].key, copies),
                value: substitute_expr(&v[i].value, copies),
            },
        );
        i += 1;
    }
    assert(model::props(out@) =~= subst_props(model::props(v@), held(copies@)));
    out
}

fn substitute_target(t: &AssignTarget, copies: &BTreeMap<u32, Expression>) -> (r: AssignTarget)
    ensures
        r@ == subst_target(t@, held(copies@)),
{
    match t {
        AssignTarget::Index { object, key } => AssignTarget::Index {
            object: substitute_expr(object, copies),
            key: substitute_expr(key, copies),
        },
        AssignTarget::Member { object, property } => AssignTarget::Member {
            object: substitute_expr(object, copies),
            property: property.clone(),
        },
        _ => t.clone(),
    }
}

/// Replaces registers in what a plain statement reads.
pub fn substitute_stmt(s: &Statement, copies: &BTreeMap<u32, Expression>) -> (r: Statement)
    ensures
        r@ == subst_stmt(s@, held(copies@)),
{
    match s {
        Statement::Expr(e) => Statement::Expr(substitute_expr(e, copies)),
        Statement::Let { name, value, kind } => Statement::Let {
            name: name.clone(),
            value: substitute_expr(value, copies),
            kind: *kind,
        },
        Statement::Assign { target, value } => Statement::Assign {
            target: substitute_target(target, copies),
            value: substitute_expr(value, copies),
        },
        Statement::Return(Some(e)) => Statement::Return(Some(substitute_expr(e, copies))),
        Statement::Throw(e) => Statement::Throw(substitute_expr(e, copies)),
        _ => s.clone(),
    }
}

fn substitute_arms(
    v: &Vec<(Expression, BlockId)>,
    copies: &BTreeMap<u32, Expression>,
) -> (r: Vec<(Expression, BlockId)>)
    ensures
        cfg::arms(r@) == subst_arms(cfg::arms(v@), held(copies@)),
{
    let mut out: Vec<(Expression, BlockId)> = Vec::new();
    let mut i: usize = 0;
    while i < v.len()
        invariant
            i <= v.len(),
            out.len() == i,
            forall|k: int|
                0 <= k < i ==> cfg::arm(#[trigger] out@[k]) == (
                    subst_expr(v@[k].0@, held(copies@)),
                    v@[k].1,
                ),
        decreases v.len() - i,
    {
        out.push((substitute_expr(&v[i].0, copies), v[i].1));
        i += 1;
    }
    assert(cfg::arms(out@) =~= subst_arms(cfg::arms(v@), held(copies@)));
    out
}

/// Replaces registers in what a terminator reads.
pub fn substitute_terminator(
    t: &Terminator,
    copies: &BTreeMap<u32, Expression>,
) -> (r: Terminator)
    ensures
        r@ == subst_term(t@, held(copies@)),
{
    match t {
        Terminator::Branch { condition, true_target, false_target } => Terminator::Branch {
            condition: substitute_expr(condition, copies),
            true_target: *true_target,
            false_target: *false_target,
        },
        Terminator::Return(Some(e)) => Terminator::Return(Some(substitute_expr(e, copies))),
        Terminator::Throw(e) => Terminator::Throw(substitute_expr(e, copies)),
        Terminator::Switch { value, cases, default } => Terminator::Switch {
            value: substitute_expr(value, copies),
            cases: substitute_arms(cases, copies),
            default: *default,
        },
        _ => t.clone(),
    }
}

} // verus!
