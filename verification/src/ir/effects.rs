//! Expressions whose evaluation does more than give a value.

use super::model;
use super::model::{Expr, Key, Prop, Stmt, Target};
use super::{AssignTarget, Expression, ObjectProperty, PropertyKey, Statement, UnaryOp};
use vstd::prelude::*;

verus! {

/// Whether evaluating an expression can do more than give a value: it calls, constructs, assigns,
/// deletes, suspends, or runs an instruction that is not understood, at any depth.
pub open spec fn effects(e: Expr) -> bool
    decreases e,
{
    match e {
        Expr::Value(_) => false,
        Expr::Binary { left, right, .. } => effects(*left) || effects(*right),
        Expr::Unary { op, operand } => op == UnaryOp::Delete || effects(*operand),
        Expr::Conditional { condition, then_expr, else_expr } => effects(*condition) || effects(
            *then_expr,
        ) || effects(*else_expr),
        Expr::Member { object, property, .. } => effects(*object) || key_effects(property),
        Expr::Call { .. } => true,
        Expr::New { .. } => true,
        Expr::Array { elements } => elements_effects(elements),
        Expr::Object { properties } => props_effects(properties),
        Expr::Function { .. } => false,
        Expr::Assignment { .. } => true,
        Expr::Spread(x) => effects(*x),
        Expr::TemplateLiteral { expressions, .. } => list_effects(expressions),
        Expr::RegExp { .. } => false,
        Expr::Yield { .. } => true,
        Expr::Await(_) => true,
        Expr::JSXElement { attributes, children, .. } => list_effects(children)
            || attrs_effects(attributes),
        Expr::Unknown { .. } => true,
    }
}

pub open spec fn list_effects(es: Seq<Expr>) -> bool
    decreases es,
{
    exists|i: int| 0 <= i < es.len() && effects(#[trigger] es[i])
}

pub open spec fn elements_effects(es: Seq<Option<Expr>>) -> bool
    decreases es,
{
    exists|i: int| 0 <= i < es.len() && opt_effects(#[trigger] es[i])
}

pub open spec fn props_effects(ps: Seq<Prop>) -> bool
    decreases ps,
{
    exists|i: int| 0 <= i < ps.len() && prop_effects(#[trigger] ps[i])
}

pub open spec fn attrs_effects(attrs: Seq<(Seq<char>, Expr)>) -> bool
    decreases attrs,
{
    exists|i: int| 0 <= i < attrs.len() && effects((#[trigger] attrs[i]).1)
}

pub open spec fn opt_effects(e: Option<Expr>) -> bool
    decreases e,
{
    match e {
        Some(x) => effects(x),
        None => false,
    }
}

pub open spec fn key_effects(k: Key) -> bool
    decreases k,
{
    match k {
        Key::Computed(x) => effects(*x),
        _ => false,
    }
}

pub open spec fn prop_effects(p: Prop) -> bool
    decreases p,
{
    key_effects(p.key) || effects(p.value)
}

fn any_effects(v: &Vec<Expression>) -> (r: bool)
    ensures
        r == list_effects(model::exprs(v@)),
    decreases v,
{
    let ghost all = model::exprs(v@);
    let mut i: usize = 0;
    while i < v.len()
        invariant
            i <= v.len(),
            all == model::exprs(v@),
            forall|k: int| 0 <= k < i ==> !effects(#[trigger] all[k]),
        decreases v.len() - i,
    {
        assert(all[i as int] == v@[i as int]@);
        if v[i].has_side_effects() {
            return true;
        }
        i += 1;
    }
    false
}

fn any_element_effects(v: &Vec<Option<Expression>>) -> (r: bool)
    ensures
        r == elements_effects(model::opt_exprs(v@)),
    decreases v,
{
    let ghost all = model::opt_exprs(v@);
    let mut i: usize = 0;
    while i < v.len()
        invariant
            i <= v.len(),
            all == model::opt_exprs(v@),
            forall|k: int| 0 <= k < i ==> !opt_effects(#[trigger] all[k]),
        decreases v.len() - i,
    {
        assert(all[i as int] == model::opt_expr(v@[i as int]));
        if let Some(e) = &v[i] {
            if e.has_side_effects() {
                return true;
            }
        }
        i += 1;
    }
    false
}

fn any_prop_effects(v: &Vec<ObjectProperty>) -> (r: bool)
    ensures
        r == props_effects(model::props(v@)),
    decreases v,
{
    let ghost all = model::props(v@);
    let mut i: usize = 0;
    while i < v.len()
        invariant
            i <= v.len(),
            all == model::props(v@),
            forall|k: int| 0 <= k < i ==> !prop_effects(#[trigger] all[k]),
        decreases v.len() - i,
    {
        assert(all[i as int] == v@[i as int]@);
        if has_key_effects(&v[i].key) || v[i].value.has_side_effects() {
            return true;
        }
        i += 1;
    }
    false
}

fn any_attr_effects(v: &Vec<(String, Expression)>) -> (r: bool)
    ensures
        r == attrs_effects(model::attrs(v@)),
    decreases v,
{
    let ghost all = model::attrs(v@);
    let mut i: usize = 0;
    while i < v.len()
        invariant
            i <= v.len(),
            all == model::attrs(v@),
            forall|k: int| 0 <= k < i ==> !effects((#[trigger] all[k]).1),
        decreases v.len() - i,
    {
        assert(all[i as int] == model::attr(v@[i as int]));
        if v[i].1.has_side_effects() {
            return true;
        }
        i += 1;
    }
    false
}

fn has_key_effects(k: &PropertyKey) -> (r: bool)
    ensures
        r == key_effects(k@),
    decreases k,
{
    match k {
        PropertyKey::Computed(x) => x.has_side_effects(),
        _ => false,
    }
}

impl Expression {
    /// Whether evaluating the expression can do more than give a value.
    pub fn has_side_effects(&self) -> (r: bool)
        ensures
            r == effects(self@),
        decreases self,
    {
        match self {
            Expression::Value(_) => false,
            Expression::Binary { left, right, .. } => left.has_side_effects()
                || right.has_side_effects(),
            Expression::Unary { op, operand } => *op == UnaryOp::Delete
                || operand.has_side_effects(),
            Expression::Conditional { condition, then_expr, else_expr } => {
                condition.has_side_effects() || then_expr.has_side_effects()
                    || else_expr.has_side_effects()
            },
            Expression::Member { object, property, .. } => object.has_side_effects()
                || has_key_effects(property),
            Expression::Call { .. } => true,
            Expression::New { .. } => true,
            Expression::Array { elements } => any_element_effects(elements),
            Expression::Object { properties } => any_prop_effects(properties),
            Expression::Function { .. } => false,
            Expression::Assignment { .. } => true,
            Expression::Spread(x) => x.has_side_effects(),
            Expression::TemplateLiteral { expressions, .. } => any_effects(expressions),
            Expression::RegExp { .. } => false,
            Expression::Yield { .. } => true,
            Expression::Await(_) => true,
            Expression::JSXElement { attributes, children, .. } => any_effects(children)
                || any_attr_effects(attributes),
            Expression::Unknown { .. } => true,
        }
    }
}

/// Whether running a statement can do more than give a register or a declared name its value.
pub open spec fn stmt_effects(s: Stmt) -> bool {
    match s {
        Stmt::Assign { target: Target::Register(_), value } => effects(value),
        Stmt::Let { value, .. } => effects(value),
        Stmt::Expr(e) => effects(e),
        Stmt::Comment(_) => false,
        _ => true,
    }
}

pub fn stmt_has_side_effects(s: &Statement) -> (r: bool)
    ensures
        r == stmt_effects(s@),
{
    match s {
        Statement::Assign { target: AssignTarget::Register(_), value } => value.has_side_effects(),
        Statement::Let { value, .. } => value.has_side_effects(),
        Statement::Expr(e) => e.has_side_effects(),
        Statement::Comment(_) => false,
        _ => true,
    }
}

} // verus!
