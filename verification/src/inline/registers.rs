//! Replaces registers by the values given to them, in every place where they are read.

use crate::ir::cloning::{clone_methods, clone_opt_text, clone_texts};
use crate::ir::model;
use crate::ir::model::{Expr, Key, Prop, Stmt, Target, Val};
use crate::ir::{AssignTarget, Expression, ObjectProperty, PropertyKey, Statement, Value};
use crate::propagate::substitute;
use std::collections::BTreeMap;
use vstd::prelude::*;

verus! {

/// The value that takes the place of a register.
pub open spec fn register_value(m: Map<u32, Expr>, e: Expr) -> Option<Expr> {
    match e {
        Expr::Value(Val::Register(r)) => if m.dom().contains(r) {
            Some(m[r])
        } else {
            None
        },
        _ => None,
    }
}

fn find_register_value(m: &BTreeMap<u32, Expression>, e: &Expression) -> (r: Option<Expression>)
    ensures
        model::opt_expr(r) == register_value(substitute::held(m@), e@),
{
    broadcast use vstd::std_specs::btree::group_btree_axioms;

    match e {
        Expression::Value(Value::Register(r)) => match m.get(r) {
            Some(v) => {
                assert(substitute::held(m@)[*r] == v@);
                Some(v.clone())
            },
            None => None,
        },
        _ => None,
    }
}

/// The expression with registers replaced by the values that `m` gives them.
pub open spec fn put_expr(m: Map<u32, Expr>, e: Expr) -> Expr
    decreases e,
{
    match register_value(m, e) {
        Some(x) => x,
        None => match e {
            Expr::Value(_) => e,
            Expr::Binary { op, left, right } => Expr::Binary {
                op,
                left: Box::new(put_expr(m, *left)),
                right: Box::new(put_expr(m, *right)),
            },
            Expr::Unary { op, operand } => Expr::Unary {
                op,
                operand: Box::new(put_expr(m, *operand)),
            },
            Expr::Conditional { condition, then_expr, else_expr } => Expr::Conditional {
                condition: Box::new(put_expr(m, *condition)),
                then_expr: Box::new(put_expr(m, *then_expr)),
                else_expr: Box::new(put_expr(m, *else_expr)),
            },
            Expr::Member { object, property, optional } => Expr::Member {
                object: Box::new(put_expr(m, *object)),
                property: put_key(m, property),
                optional,
            },
            Expr::Call { callee, arguments } => Expr::Call {
                callee: Box::new(put_expr(m, *callee)),
                arguments: put_exprs(m, arguments),
            },
            Expr::New { callee, arguments } => Expr::New {
                callee: Box::new(put_expr(m, *callee)),
                arguments: put_exprs(m, arguments),
            },
            Expr::Array { elements } => Expr::Array {
                elements: put_elements(m, elements),
            },
            Expr::Object { properties } => Expr::Object {
                properties: put_props(m, properties),
            },
            Expr::Function { .. } => e,
            Expr::Assignment { target, value } => Expr::Assignment {
                target: Box::new(put_expr(m, *target)),
                value: Box::new(put_expr(m, *value)),
            },
            Expr::Spread(x) => Expr::Spread(Box::new(put_expr(m, *x))),
            Expr::TemplateLiteral { quasis, expressions } => Expr::TemplateLiteral {
                quasis,
                expressions: put_exprs(m, expressions),
            },
            Expr::RegExp { .. } => e,
            Expr::Yield { value, delegate } => Expr::Yield {
                value: Box::new(put_expr(m, *value)),
                delegate,
            },
            Expr::Await(x) => Expr::Await(Box::new(put_expr(m, *x))),
            Expr::JSXElement { tag, attributes, children } => Expr::JSXElement {
                tag,
                attributes: put_attrs(m, attributes),
                children: put_exprs(m, children),
            },
            Expr::Unknown { .. } => e,
        },
    }
}

pub open spec fn put_key(m: Map<u32, Expr>, e: Key) -> Key
    decreases e,
{
    match e {
        Key::Ident(_) => e,
        Key::String(_) => e,
        Key::Index(_) => e,
        Key::Computed(x) => Key::Computed(Box::new(put_expr(m, *x))),
    }
}

pub open spec fn put_target(m: Map<u32, Expr>, e: Target) -> Target
    decreases e,
{
    match e {
        Target::Register(_) => e,
        Target::Variable(_) => e,
        Target::Member { object, property } => Target::Member {
            object: put_expr(m, object),
            property,
        },
        Target::Index { object, key } => Target::Index {
            object: put_expr(m, object),
            key: put_expr(m, key),
        },
        Target::DestructuringArray(x) => Target::DestructuringArray(put_slots(m, x)),
        Target::DestructuringArrayRest { elements, rest } => Target::DestructuringArrayRest {
            elements: put_slots(m, elements),
            rest: Box::new(put_target(m, *rest)),
        },
        Target::DestructuringObject(x) => Target::DestructuringObject(put_fields(m, x)),
        Target::DestructuringObjectRest { properties, rest } => Target::DestructuringObjectRest {
            properties: put_fields(m, properties),
            rest: Box::new(put_target(m, *rest)),
        },
    }
}

pub open spec fn put_stmt(m: Map<u32, Expr>, e: Stmt) -> Stmt
    decreases e,
{
    match e {
        Stmt::Expr(x) => Stmt::Expr(put_expr(m, x)),
        Stmt::Let { name, value, kind } => Stmt::Let {
            name,
            value: put_expr(m, value),
            kind,
        },
        Stmt::Assign { target, value } => Stmt::Assign {
            target: put_target(m, target),
            value: put_expr(m, value),
        },
        Stmt::Return(x) => Stmt::Return(put_opt_expr(m, x)),
        Stmt::Throw(x) => Stmt::Throw(put_expr(m, x)),
        Stmt::If { condition, then_body, else_body } => Stmt::If {
            condition: put_expr(m, condition),
            then_body: put_stmts(m, then_body),
            else_body: put_stmts(m, else_body),
        },
        Stmt::While { condition, body } => Stmt::While {
            condition: put_expr(m, condition),
            body: put_stmts(m, body),
        },
        Stmt::DoWhile { body, condition } => Stmt::DoWhile {
            body: put_stmts(m, body),
            condition: put_expr(m, condition),
        },
        Stmt::For { init, condition, update, body } => Stmt::For {
            init: put_opt_stmt(m, init),
            condition: put_opt_expr(m, condition),
            update: put_opt_stmt(m, update),
            body: put_stmts(m, body),
        },
        Stmt::ForIn { variable, object, body } => Stmt::ForIn {
            variable,
            object: put_expr(m, object),
            body: put_stmts(m, body),
        },
        Stmt::ForOf { variable, iterable, body } => Stmt::ForOf {
            variable,
            iterable: put_expr(m, iterable),
            body: put_stmts(m, body),
        },
        Stmt::Block(x) => Stmt::Block(put_stmts(m, x)),
        Stmt::TryCatch { try_body, catch_param, catch_body, finally_body } => Stmt::TryCatch {
            try_body: put_stmts(m, try_body),
            catch_param,
            catch_body: put_stmts(m, catch_body),
            finally_body: put_stmts(m, finally_body),
        },
        Stmt::Switch { discriminant, cases, default } => Stmt::Switch {
            discriminant: put_expr(m, discriminant),
            cases: put_cases(m, cases),
            default: put_opt_stmts(m, default),
        },
        Stmt::Class { name, super_class, constructor, methods } => Stmt::Class {
            name,
            super_class: put_opt_expr(m, super_class),
            constructor,
            methods,
        },
        Stmt::Comment(_) => e,
        Stmt::Break(_) => e,
        Stmt::Continue(_) => e,
    }
}

pub open spec fn put_opt_expr(m: Map<u32, Expr>, o: Option<Expr>) -> Option<Expr>
    decreases o,
{
    match o {
        Some(x) => Some(put_expr(m, x)),
        None => None,
    }
}

pub open spec fn put_exprs(m: Map<u32, Expr>, s: Seq<Expr>) -> Seq<Expr>
    decreases s,
{
    Seq::new(
        s.len(),
        |i: int|
            if 0 <= i < s.len() {
                put_expr(m, s[i])
            } else {
                arbitrary()
            },
    )
}

pub open spec fn put_elements(m: Map<u32, Expr>, s: Seq<Option<Expr>>) -> Seq<Option<Expr>>
    decreases s,
{
    Seq::new(
        s.len(),
        |i: int|
            if 0 <= i < s.len() {
                put_opt_expr(m, s[i])
            } else {
                arbitrary()
            },
    )
}

pub open spec fn put_prop(m: Map<u32, Expr>, p: Prop) -> Prop
    decreases p,
{
    Prop { key: put_key(m, p.key), value: put_expr(m, p.value) }
}

pub open spec fn put_props(m: Map<u32, Expr>, s: Seq<Prop>) -> Seq<Prop>
    decreases s,
{
    Seq::new(
        s.len(),
        |i: int|
            if 0 <= i < s.len() {
                put_prop(m, s[i])
            } else {
                arbitrary()
            },
    )
}

pub open spec fn put_attr(m: Map<u32, Expr>, a: (Seq<char>, Expr)) -> (Seq<char>, Expr)
    decreases a,
{
    (a.0, put_expr(m, a.1))
}

pub open spec fn put_attrs(m: Map<u32, Expr>, s: Seq<(Seq<char>, Expr)>) -> Seq<(Seq<char>, Expr)>
    decreases s,
{
    Seq::new(
        s.len(),
        |i: int|
            if 0 <= i < s.len() {
                put_attr(m, s[i])
            } else {
                arbitrary()
            },
    )
}

pub open spec fn put_slot(
    m: Map<u32, Expr>,
    o: Option<(Target, Option<Expr>)>,
) -> Option<(Target, Option<Expr>)>
    decreases o,
{
    match o {
        Some(p) => Some((put_target(m, p.0), put_opt_expr(m, p.1))),
        None => None,
    }
}

pub open spec fn put_slots(m: Map<u32, Expr>, s: Seq<Option<(Target, Option<Expr>)>>) -> Seq<Option<(Target, Option<Expr>)>>
    decreases s,
{
    Seq::new(
        s.len(),
        |i: int|
            if 0 <= i < s.len() {
                put_slot(m, s[i])
            } else {
                arbitrary()
            },
    )
}

pub open spec fn put_field(
    m: Map<u32, Expr>,
    x: (Seq<char>, Target, Option<Expr>),
) -> (Seq<char>, Target, Option<Expr>)
    decreases x,
{
    (x.0, put_target(m, x.1), put_opt_expr(m, x.2))
}

pub open spec fn put_fields(m: Map<u32, Expr>, s: Seq<(Seq<char>, Target, Option<Expr>)>) -> Seq<(Seq<char>, Target, Option<Expr>)>
    decreases s,
{
    Seq::new(
        s.len(),
        |i: int|
            if 0 <= i < s.len() {
                put_field(m, s[i])
            } else {
                arbitrary()
            },
    )
}

pub open spec fn put_stmts(m: Map<u32, Expr>, s: Seq<Stmt>) -> Seq<Stmt>
    decreases s,
{
    Seq::new(
        s.len(),
        |i: int|
            if 0 <= i < s.len() {
                put_stmt(m, s[i])
            } else {
                arbitrary()
            },
    )
}

pub open spec fn put_opt_stmt(m: Map<u32, Expr>, o: Option<Box<Stmt>>) -> Option<Box<Stmt>>
    decreases o,
{
    match o {
        Some(x) => Some(Box::new(put_stmt(m, *x))),
        None => None,
    }
}

pub open spec fn put_opt_stmts(m: Map<u32, Expr>, o: Option<Seq<Stmt>>) -> Option<Seq<Stmt>>
    decreases o,
{
    match o {
        Some(x) => Some(put_stmts(m, x)),
        None => None,
    }
}

pub open spec fn put_case(m: Map<u32, Expr>, c: (Expr, Seq<Stmt>)) -> (Expr, Seq<Stmt>)
    decreases c,
{
    (put_expr(m, c.0), put_stmts(m, c.1))
}

pub open spec fn put_cases(m: Map<u32, Expr>, s: Seq<(Expr, Seq<Stmt>)>) -> Seq<(Expr, Seq<Stmt>)>
    decreases s,
{
    Seq::new(
        s.len(),
        |i: int|
            if 0 <= i < s.len() {
                put_case(m, s[i])
            } else {
                arbitrary()
            },
    )
}

pub fn place_expr(m: &BTreeMap<u32, Expression>, e: &Expression) -> (r: Expression)
    ensures
        r@ == put_expr(substitute::held(m@), e@),
    decreases e,
{
    if let Some(x) = find_register_value(m, e) {
        return x;
    }
    match e {
        Expression::Value(_) => e.clone(),
        Expression::Binary { op, left, right } => Expression::Binary {
            op: *op,
            left: Box::new(place_expr(m, left)),
            right: Box::new(place_expr(m, right)),
        },
        Expression::Unary { op, operand } => Expression::Unary {
            op: *op,
            operand: Box::new(place_expr(m, operand)),
        },
        Expression::Conditional { condition, then_expr, else_expr } => Expression::Conditional {
            condition: Box::new(place_expr(m, condition)),
            then_expr: Box::new(place_expr(m, then_expr)),
            else_expr: Box::new(place_expr(m, else_expr)),
        },
        Expression::Member { object, property, optional } => Expression::Member {
            object: Box::new(place_expr(m, object)),
            property: place_key(m, property),
            optional: *optional,
        },
        Expression::Call { callee, arguments } => Expression::Call {
            callee: Box::new(place_expr(m, callee)),
            arguments: place_exprs(m, arguments),
        },
        Expression::New { callee, arguments } => Expression::New {
            callee: Box::new(place_expr(m, callee)),
            arguments: place_exprs(m, arguments),
        },
        Expression::Array { elements } => Expression::Array {
            elements: place_elements(m, elements),
        },
        Expression::Object { properties } => Expression::Object {
            properties: place_props(m, properties),
        },
        Expression::Function { .. } => e.clone(),
        Expression::Assignment { target, value } => Expression::Assignment {
            target: Box::new(place_expr(m, target)),
            value: Box::new(place_expr(m, value)),
        },
        Expression::Spread(x) => Expression::Spread(Box::new(place_expr(m, x))),
        Expression::TemplateLiteral { quasis, expressions } => Expression::TemplateLiteral {
            quasis: clone_texts(quasis),
            expressions: place_exprs(m, expressions),
        },
        Expression::RegExp { .. } => e.clone(),
        Expression::Yield { value, delegate } => Expression::Yield {
            value: Box::new(place_expr(m, value)),
            delegate: *delegate,
        },
        Expression::Await(x) => Expression::Await(Box::new(place_expr(m, x))),
        Expression::JSXElement { tag, attributes, children } => Expression::JSXElement {
            tag: tag.clone(),
            attributes: place_attrs(m, attributes),
            children: place_exprs(m, children),
        },
        Expression::Unknown { .. } => e.clone(),
    }
}

pub fn place_key(m: &BTreeMap<u32, Expression>, e: &PropertyKey) -> (r: PropertyKey)
    ensures
        r@ == put_key(substitute::held(m@), e@),
    decreases e,
{
    match e {
        PropertyKey::Ident(_) => e.clone(),
        PropertyKey::String(_) => e.clone(),
        PropertyKey::Index(_) => e.clone(),
        PropertyKey::Computed(x) => PropertyKey::Computed(Box::new(place_expr(m, x))),
    }
}

pub fn place_target(m: &BTreeMap<u32, Expression>, e: &AssignTarget) -> (r: AssignTarget)
    ensures
        r@ == put_target(substitute::held(m@), e@),
    decreases e,
{
    match e {
        AssignTarget::Register(_) => e.clone(),
        AssignTarget::Variable(_) => e.clone(),
        AssignTarget::Member { object, property } => AssignTarget::Member {
            object: place_expr(m, object),
            property: property.clone(),
        },
        AssignTarget::Index { object, key } => AssignTarget::Index {
            object: place_expr(m, object),
            key: place_expr(m, key),
        },
        AssignTarget::DestructuringArray(x) => AssignTarget::DestructuringArray(place_slots(m, x)),
        AssignTarget::DestructuringArrayRest { elements, rest } => AssignTarget::DestructuringArrayRest {
            elements: place_slots(m, elements),
            rest: Box::new(place_target(m, rest)),
        },
        AssignTarget::DestructuringObject(x) => AssignTarget::DestructuringObject(place_fields(m, x)),
        AssignTarget::DestructuringObjectRest { properties, rest } => AssignTarget::DestructuringObjectRest {
            properties: place_fields(m, properties),
            rest: Box::new(place_target(m, rest)),
        },
    }
}

pub fn place_stmt(m: &BTreeMap<u32, Expression>, e: &Statement) -> (r: Statement)
    ensures
        r@ == put_stmt(substitute::held(m@), e@),
    decreases e,
{
    match e {
        Statement::Expr(x) => Statement::Expr(place_expr(m, x)),
        Statement::Let { name, value, kind } => Statement::Let {
            name: name.clone(),
            value: place_expr(m, value),
            kind: *kind,
        },
        Statement::Assign { target, value } => Statement::Assign {
            target: place_target(m, target),
            value: place_expr(m, value),
        },
        Statement::Return(x) => Statement::Return(place_opt_expr(m, x)),
        Statement::Throw(x) => Statement::Throw(place_expr(m, x)),
        Statement::If { condition, then_body, else_body } => Statement::If {
            condition: place_expr(m, condition),
            then_body: place_stmts(m, then_body),
            else_body: place_stmts(m, else_body),
        },
        Statement::While { condition, body } => Statement::While {
            condition: place_expr(m, condition),
            body: place_stmts(m, body),
        },
        Statement::DoWhile { body, condition } => Statement::DoWhile {
            body: place_stmts(m, body),
            condition: place_expr(m, condition),
        },
        Statement::For { init, condition, update, body } => Statement::For {
            init: place_opt_stmt(m, init),
            condition: place_opt_expr(m, condition),
            update: place_opt_stmt(m, update),
            body: place_stmts(m, body),
        },
        Statement::ForIn { variable, object, body } => Statement::ForIn {
            variable: variable.clone(),
            object: place_expr(m, object),
            body: place_stmts(m, body),
        },
        Statement::ForOf { variable, iterable, body } => Statement::ForOf {
            variable: variable.clone(),
            iterable: place_expr(m, iterable),
            body: place_stmts(m, body),
        },
        Statement::Block(x) => Statement::Block(place_stmts(m, x)),
        Statement::TryCatch { try_body, catch_param, catch_body, finally_body } => Statement::TryCatch {
            try_body: place_stmts(m, try_body),
            catch_param: clone_opt_text(catch_param),
            catch_body: place_stmts(m, catch_body),
            finally_body: place_stmts(m, finally_body),
        },
        Statement::Switch { discriminant, cases, default } => Statement::Switch {
            discriminant: place_expr(m, discriminant),
            cases: place_cases(m, cases),
            default: place_opt_stmts(m, default),
        },
        Statement::Class { name, super_class, constructor, methods } => Statement::Class {
            name: name.clone(),
            super_class: place_opt_expr(m, super_class),
            constructor: *constructor,
            methods: clone_methods(methods),
        },
        Statement::Comment(_) => e.clone(),
        Statement::Break(_) => e.clone(),
        Statement::Continue(_) => e.clone(),
    }
}

pub fn place_opt_expr(m: &BTreeMap<u32, Expression>, o: &Option<Expression>) -> (r: Option<Expression>)
    ensures
        model::opt_expr(r) == put_opt_expr(substitute::held(m@), model::opt_expr(*o)),
    decreases o,
{
    match o {
        Some(x) => Some(place_expr(m, x)),
        None => None,
    }
}

pub fn place_exprs(m: &BTreeMap<u32, Expression>, v: &Vec<Expression>) -> (r: Vec<Expression>)
    ensures
        model::exprs(r@) == put_exprs(substitute::held(m@), model::exprs(v@)),
    decreases v,
{
    let mut out: Vec<Expression> = Vec::new();
    let mut i: usize = 0;
    while i < v.len()
        invariant
            i <= v.len(),
            out.len() == i,
            forall|k: int|
                0 <= k < i ==> (#[trigger] out@[k])@ == put_expr(substitute::held(m@), v@[k]@),
        decreases v.len() - i,
    {
        out.push(place_expr(m, &v[i]));
        i += 1;
    }
    assert(model::exprs(out@) =~= put_exprs(substitute::held(m@), model::exprs(v@)));
    out
}

pub fn place_elements(m: &BTreeMap<u32, Expression>, v: &Vec<Option<Expression>>) -> (r: Vec<Option<Expression>>)
    ensures
        model::opt_exprs(r@) == put_elements(substitute::held(m@), model::opt_exprs(v@)),
    decreases v,
{
    let mut out: Vec<Option<Expression>> = Vec::new();
    let mut i: usize = 0;
    while i < v.len()
        invariant
            i <= v.len(),
            out.len() == i,
            forall|k: int|
                0 <= k < i ==> model::opt_expr(#[trigger] out@[k]) == put_opt_expr(substitute::held(m@), model::opt_expr(v@[k])),
        decreases v.len() - i,
    {
        out.push(place_opt_expr(m, &v[i]));
        i += 1;
    }
    assert(model::opt_exprs(out@) =~= put_elements(substitute::held(m@), model::opt_exprs(v@)));
    out
}

pub fn place_props(m: &BTreeMap<u32, Expression>, v: &Vec<ObjectProperty>) -> (r: Vec<ObjectProperty>)
    ensures
        model::props(r@) == put_props(substitute::held(m@), model::props(v@)),
    decreases v,
{
    let mut out: Vec<ObjectProperty> = Vec::new();
    let mut i: usize = 0;
    while i < v.len()
        invariant
            i <= v.len(),
            out.len() == i,
            forall|k: int|
                0 <= k < i ==> (#[trigger] out@[k])@ == put_prop(substitute::held(m@), v@[k]@),
        decreases v.len() - i,
    {
        out.push(ObjectProperty {
            key: place_key(m, &v[i].key),
            value: place_expr(m, &v[i].value),
        });
        i += 1;
    }
    assert(model::props(out@) =~= put_props(substitute::held(m@), model::props(v@)));
    out
}

pub fn place_attrs(m: &BTreeMap<u32, Expression>, v: &Vec<(String, Expression)>) -> (r: Vec<(String, Expression)>)
    ensures
        model::attrs(r@) == put_attrs(substitute::held(m@), model::attrs(v@)),
    decreases v,
{
    let mut out: Vec<(String, Expression)> = Vec::new();
    let mut i: usize = 0;
    while i < v.len()
        invariant
            i <= v.len(),
            out.len() == i,
            forall|k: int|
                0 <= k < i ==> model::attr(#[trigger] out@[k]) == put_attr(substitute::held(m@), model::attr(v@[k])),
        decreases v.len() - i,
    {
        out.push((v[i].0.clone(), place_expr(m, &v[i].1)));
        i += 1;
    }
    assert(model::attrs(out@) =~= put_attrs(substitute::held(m@), model::attrs(v@)));
    out
}

pub fn place_slot(
    m: &BTreeMap<u32, Expression>,
    o: &Option<(AssignTarget, Option<Expression>)>,
) -> (r: Option<(AssignTarget, Option<Expression>)>)
    ensures
        model::slot(r) == put_slot(substitute::held(m@), model::slot(*o)),
    decreases o,
{
    match o {
        Some(p) => Some((place_target(m, &p.0), place_opt_expr(m, &p.1))),
        None => None,
    }
}

pub fn place_slots(m: &BTreeMap<u32, Expression>, v: &Vec<Option<(AssignTarget, Option<Expression>)>>) -> (r: Vec<Option<(AssignTarget, Option<Expression>)>>)
    ensures
        model::slots(r@) == put_slots(substitute::held(m@), model::slots(v@)),
    decreases v,
{
    let mut out: Vec<Option<(AssignTarget, Option<Expression>)>> = Vec::new();
    let mut i: usize = 0;
    while i < v.len()
        invariant
            i <= v.len(),
            out.len() == i,
            forall|k: int|
                0 <= k < i ==> model::slot(#[trigger] out@[k]) == put_slot(substitute::held(m@), model::slot(v@[k])),
        decreases v.len() - i,
    {
        out.push(place_slot(m, &v[i]));
        i += 1;
    }
    assert(model::slots(out@) =~= put_slots(substitute::held(m@), model::slots(v@)));
    out
}

pub fn place_fields(m: &BTreeMap<u32, Expression>, v: &Vec<(String, AssignTarget, Option<Expression>)>) -> (r: Vec<(String, AssignTarget, Option<Expression>)>)
    ensures
        model::fields(r@) == put_fields(substitute::held(m@), model::fields(v@)),
    decreases v,
{
    let mut out: Vec<(String, AssignTarget, Option<Expression>)> = Vec::new();
    let mut i: usize = 0;
    while i < v.len()
        invariant
            i <= v.len(),
            out.len() == i,
            forall|k: int|
                0 <= k < i ==> model::field(#[trigger] out@[k]) == put_field(substitute::held(m@), model::field(v@[k])),
        decreases v.len() - i,
    {
        out.push((v[i].0.clone(), place_target(m, &v[i].1), place_opt_expr(m, &v[i].2)));
        i += 1;
    }
    assert(model::fields(out@) =~= put_fields(substitute::held(m@), model::fields(v@)));
    out
}

pub fn place_stmts(m: &BTreeMap<u32, Expression>, v: &Vec<Statement>) -> (r: Vec<Statement>)
    ensures
        model::stmts(r@) == put_stmts(substitute::held(m@), model::stmts(v@)),
    decreases v,
{
    let mut out: Vec<Statement> = Vec::new();
    let mut i: usize = 0;
    while i < v.len()
        invariant
            i <= v.len(),
            out.len() == i,
            forall|k: int|
                0 <= k < i ==> (#[trigger] out@[k])@ == put_stmt(substitute::held(m@), v@[k]@),
        decreases v.len() - i,
    {
        out.push(place_stmt(m, &v[i]));
        i += 1;
    }
    assert(model::stmts(out@) =~= put_stmts(substitute::held(m@), model::stmts(v@)));
    out
}

pub fn place_opt_stmt(m: &BTreeMap<u32, Expression>, o: &Option<Box<Statement>>) -> (r: Option<Box<Statement>>)
    ensures
        model::opt_stmt(r) == put_opt_stmt(substitute::held(m@), model::opt_stmt(*o)),
    decreases o,
{
    match o {
        Some(x) => Some(Box::new(place_stmt(m, x))),
        None => None,
    }
}

pub fn place_opt_stmts(m: &BTreeMap<u32, Expression>, o: &Option<Vec<Statement>>) -> (r: Option<Vec<Statement>>)
    ensures
        model::opt_stmts(r) == put_opt_stmts(substitute::held(m@), model::opt_stmts(*o)),
    decreases o,
{
    match o {
        Some(x) => Some(place_stmts(m, x)),
        None => None,
    }
}

pub fn place_cases(m: &BTreeMap<u32, Expression>, v: &Vec<(Expression, Vec<Statement>)>) -> (r: Vec<(Expression, Vec<Statement>)>)
    ensures
        model::case_arms(r@) == put_cases(substitute::held(m@), model::case_arms(v@)),
    decreases v,
{
    let mut out: Vec<(Expression, Vec<Statement>)> = Vec::new();
    let mut i: usize = 0;
    while i < v.len()
        invariant
            i <= v.len(),
            out.len() == i,
            forall|k: int|
                0 <= k < i ==> model::case_arm(#[trigger] out@[k]) == put_case(substitute::held(m@), model::case_arm(v@[k])),
        decreases v.len() - i,
    {
        out.push((place_expr(m, &v[i].0), place_stmts(m, &v[i].1)));
        i += 1;
    }
    assert(model::case_arms(out@) =~= put_cases(substitute::held(m@), model::case_arms(v@)));
    out
}

} // verus!
