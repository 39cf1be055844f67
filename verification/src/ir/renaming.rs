//! Renaming of variables: every read, write and declaration of a name that the map holds takes
//! the name it maps to. Property names are left alone.

use super::cloning::{clone_methods, clone_texts};
use super::model;
use super::model::{Expr, Key, Prop, Stmt, Target, Val};
use super::{
    AssignTarget, Expression, ObjectProperty, PropertyKey, Statement, Value,
};
use crate::dict::Dict;
use vstd::prelude::*;

verus! {

/// The new names in a map, by their characters.
pub open spec fn names_of(m: Map<Seq<char>, String>) -> Map<Seq<char>, Seq<char>> {
    m.map_values(|s: String| s@)
}

/// The name that `n` takes.
pub open spec fn new_name(m: Map<Seq<char>, Seq<char>>, n: Seq<char>) -> Seq<char> {
    if m.dom().contains(n) {
        m[n]
    } else {
        n
    }
}

pub open spec fn new_opt_name(
    m: Map<Seq<char>, Seq<char>>,
    n: Option<Seq<char>>,
) -> Option<Seq<char>> {
    match n {
        Some(n) => Some(new_name(m, n)),
        None => None,
    }
}

/// The renaming of a leaf operand.
pub open spec fn ren_val(m: Map<Seq<char>, Seq<char>>, v: Val) -> Val {
    match v {
        Val::Variable(n) => Val::Variable(new_name(m, n)),
        _ => v,
    }
}

/// The renaming of an expression.
pub open spec fn ren_expr(m: Map<Seq<char>, Seq<char>>, e: Expr) -> Expr
    decreases e,
{
    match e {
        Expr::Value(x) => Expr::Value(ren_val(m, x)),
        Expr::Binary { op, left, right } => Expr::Binary {
            op,
            left: Box::new(ren_expr(m, *left)),
            right: Box::new(ren_expr(m, *right)),
        },
        Expr::Unary { op, operand } => Expr::Unary {
            op,
            operand: Box::new(ren_expr(m, *operand)),
        },
        Expr::Conditional { condition, then_expr, else_expr } => Expr::Conditional {
            condition: Box::new(ren_expr(m, *condition)),
            then_expr: Box::new(ren_expr(m, *then_expr)),
            else_expr: Box::new(ren_expr(m, *else_expr)),
        },
        Expr::Member { object, property, optional } => Expr::Member {
            object: Box::new(ren_expr(m, *object)),
            property: ren_key(m, property),
            optional,
        },
        Expr::Call { callee, arguments } => Expr::Call {
            callee: Box::new(ren_expr(m, *callee)),
            arguments: ren_exprs(m, arguments),
        },
        Expr::New { callee, arguments } => Expr::New {
            callee: Box::new(ren_expr(m, *callee)),
            arguments: ren_exprs(m, arguments),
        },
        Expr::Array { elements } => Expr::Array {
            elements: ren_elements(m, elements),
        },
        Expr::Object { properties } => Expr::Object {
            properties: ren_props(m, properties),
        },
        Expr::Function { .. } => e,
        Expr::Assignment { target, value } => Expr::Assignment {
            target: Box::new(ren_expr(m, *target)),
            value: Box::new(ren_expr(m, *value)),
        },
        Expr::Spread(x) => Expr::Spread(Box::new(ren_expr(m, *x))),
        Expr::TemplateLiteral { quasis, expressions } => Expr::TemplateLiteral {
            quasis,
            expressions: ren_exprs(m, expressions),
        },
        Expr::RegExp { .. } => e,
        Expr::Yield { value, delegate } => Expr::Yield {
            value: Box::new(ren_expr(m, *value)),
            delegate,
        },
        Expr::Await(x) => Expr::Await(Box::new(ren_expr(m, *x))),
        Expr::JSXElement { tag, attributes, children } => Expr::JSXElement {
            tag,
            attributes: ren_attrs(m, attributes),
            children: ren_exprs(m, children),
        },
        Expr::Unknown { .. } => e,
    }
}

/// The renaming of a property key.
pub open spec fn ren_key(m: Map<Seq<char>, Seq<char>>, e: Key) -> Key
    decreases e,
{
    match e {
        Key::Ident(_) => e,
        Key::String(_) => e,
        Key::Index(_) => e,
        Key::Computed(x) => Key::Computed(Box::new(ren_expr(m, *x))),
    }
}

/// The renaming of an assignment target.
pub open spec fn ren_target(m: Map<Seq<char>, Seq<char>>, e: Target) -> Target
    decreases e,
{
    match e {
        Target::Register(_) => e,
        Target::Variable(x) => Target::Variable(new_name(m, x)),
        Target::Member { object, property } => Target::Member {
            object: ren_expr(m, object),
            property,
        },
        Target::Index { object, key } => Target::Index {
            object: ren_expr(m, object),
            key: ren_expr(m, key),
        },
        Target::DestructuringArray(x) => Target::DestructuringArray(ren_slots(m, x)),
        Target::DestructuringArrayRest { elements, rest } => Target::DestructuringArrayRest {
            elements: ren_slots(m, elements),
            rest: Box::new(ren_target(m, *rest)),
        },
        Target::DestructuringObject(x) => Target::DestructuringObject(ren_fields(m, x)),
        Target::DestructuringObjectRest { properties, rest } => Target::DestructuringObjectRest {
            properties: ren_fields(m, properties),
            rest: Box::new(ren_target(m, *rest)),
        },
    }
}

/// The renaming of a statement, nested bodies included.
pub open spec fn ren_stmt(m: Map<Seq<char>, Seq<char>>, e: Stmt) -> Stmt
    decreases e,
{
    match e {
        Stmt::Expr(x) => Stmt::Expr(ren_expr(m, x)),
        Stmt::Let { name, value, kind } => Stmt::Let {
            name: new_name(m, name),
            value: ren_expr(m, value),
            kind,
        },
        Stmt::Assign { target, value } => Stmt::Assign {
            target: ren_target(m, target),
            value: ren_expr(m, value),
        },
        Stmt::Return(x) => Stmt::Return(ren_opt_expr(m, x)),
        Stmt::Throw(x) => Stmt::Throw(ren_expr(m, x)),
        Stmt::If { condition, then_body, else_body } => Stmt::If {
            condition: ren_expr(m, condition),
            then_body: ren_stmts(m, then_body),
            else_body: ren_stmts(m, else_body),
        },
        Stmt::While { condition, body } => Stmt::While {
            condition: ren_expr(m, condition),
            body: ren_stmts(m, body),
        },
        Stmt::DoWhile { body, condition } => Stmt::DoWhile {
            body: ren_stmts(m, body),
            condition: ren_expr(m, condition),
        },
        Stmt::For { init, condition, update, body } => Stmt::For {
            init: ren_opt_stmt(m, init),
            condition: ren_opt_expr(m, condition),
            update: ren_opt_stmt(m, update),
            body: ren_stmts(m, body),
        },
        Stmt::ForIn { variable, object, body } => Stmt::ForIn {
            variable: new_name(m, variable),
            object: ren_expr(m, object),
            body: ren_stmts(m, body),
        },
        Stmt::ForOf { variable, iterable, body } => Stmt::ForOf {
            variable: new_name(m, variable),
            iterable: ren_expr(m, iterable),
            body: ren_stmts(m, body),
        },
        Stmt::Block(x) => Stmt::Block(ren_stmts(m, x)),
        Stmt::TryCatch { try_body, catch_param, catch_body, finally_body } => Stmt::TryCatch {
            try_body: ren_stmts(m, try_body),
            catch_param: new_opt_name(m, catch_param),
            catch_body: ren_stmts(m, catch_body),
            finally_body: ren_stmts(m, finally_body),
        },
        Stmt::Switch { discriminant, cases, default } => Stmt::Switch {
            discriminant: ren_expr(m, discriminant),
            cases: ren_cases(m, cases),
            default: ren_opt_stmts(m, default),
        },
        Stmt::Class { name, super_class, constructor, methods } => Stmt::Class {
            name,
            super_class: ren_opt_expr(m, super_class),
            constructor,
            methods,
        },
        Stmt::Comment(_) => e,
        Stmt::Break(_) => e,
        Stmt::Continue(_) => e,
    }
}

pub open spec fn ren_opt_expr(m: Map<Seq<char>, Seq<char>>, o: Option<Expr>) -> Option<Expr>
    decreases o,
{
    match o {
        Some(x) => Some(ren_expr(m, x)),
        None => None,
    }
}

pub open spec fn ren_exprs(m: Map<Seq<char>, Seq<char>>, s: Seq<Expr>) -> Seq<Expr>
    decreases s,
{
    Seq::new(
        s.len(),
        |i: int|
            if 0 <= i < s.len() {
                ren_expr(m, s[i])
            } else {
                arbitrary()
            },
    )
}

pub open spec fn ren_elements(m: Map<Seq<char>, Seq<char>>, s: Seq<Option<Expr>>) -> Seq<Option<Expr>>
    decreases s,
{
    Seq::new(
        s.len(),
        |i: int|
            if 0 <= i < s.len() {
                ren_opt_expr(m, s[i])
            } else {
                arbitrary()
            },
    )
}

pub open spec fn ren_prop(m: Map<Seq<char>, Seq<char>>, p: Prop) -> Prop
    decreases p,
{
    Prop { key: ren_key(m, p.key), value: ren_expr(m, p.value) }
}

pub open spec fn ren_props(m: Map<Seq<char>, Seq<char>>, s: Seq<Prop>) -> Seq<Prop>
    decreases s,
{
    Seq::new(
        s.len(),
        |i: int|
            if 0 <= i < s.len() {
                ren_prop(m, s[i])
            } else {
                arbitrary()
            },
    )
}

pub open spec fn ren_attr(
    m: Map<Seq<char>, Seq<char>>,
    a: (Seq<char>, Expr),
) -> (Seq<char>, Expr)
    decreases a,
{
    (a.0, ren_expr(m, a.1))
}

pub open spec fn ren_attrs(m: Map<Seq<char>, Seq<char>>, s: Seq<(Seq<char>, Expr)>) -> Seq<(Seq<char>, Expr)>
    decreases s,
{
    Seq::new(
        s.len(),
        |i: int|
            if 0 <= i < s.len() {
                ren_attr(m, s[i])
            } else {
                arbitrary()
            },
    )
}

pub open spec fn ren_slot(
    m: Map<Seq<char>, Seq<char>>,
    o: Option<(Target, Option<Expr>)>,
) -> Option<(Target, Option<Expr>)>
    decreases o,
{
    match o {
        Some(p) => Some((ren_target(m, p.0), ren_opt_expr(m, p.1))),
        None => None,
    }
}

pub open spec fn ren_slots(m: Map<Seq<char>, Seq<char>>, s: Seq<Option<(Target, Option<Expr>)>>) -> Seq<Option<(Target, Option<Expr>)>>
    decreases s,
{
    Seq::new(
        s.len(),
        |i: int|
            if 0 <= i < s.len() {
                ren_slot(m, s[i])
            } else {
                arbitrary()
            },
    )
}

pub open spec fn ren_field(
    m: Map<Seq<char>, Seq<char>>,
    f: (Seq<char>, Target, Option<Expr>),
) -> (Seq<char>, Target, Option<Expr>)
    decreases f,
{
    (f.0, ren_target(m, f.1), ren_opt_expr(m, f.2))
}

pub open spec fn ren_fields(m: Map<Seq<char>, Seq<char>>, s: Seq<(Seq<char>, Target, Option<Expr>)>) -> Seq<(Seq<char>, Target, Option<Expr>)>
    decreases s,
{
    Seq::new(
        s.len(),
        |i: int|
            if 0 <= i < s.len() {
                ren_field(m, s[i])
            } else {
                arbitrary()
            },
    )
}

pub open spec fn ren_stmts(m: Map<Seq<char>, Seq<char>>, s: Seq<Stmt>) -> Seq<Stmt>
    decreases s,
{
    Seq::new(
        s.len(),
        |i: int|
            if 0 <= i < s.len() {
                ren_stmt(m, s[i])
            } else {
                arbitrary()
            },
    )
}

pub open spec fn ren_opt_stmt(m: Map<Seq<char>, Seq<char>>, o: Option<Box<Stmt>>) -> Option<Box<Stmt>>
    decreases o,
{
    match o {
        Some(x) => Some(Box::new(ren_stmt(m, *x))),
        None => None,
    }
}

pub open spec fn ren_opt_stmts(m: Map<Seq<char>, Seq<char>>, o: Option<Seq<Stmt>>) -> Option<Seq<Stmt>>
    decreases o,
{
    match o {
        Some(x) => Some(ren_stmts(m, x)),
        None => None,
    }
}

pub open spec fn ren_case(
    m: Map<Seq<char>, Seq<char>>,
    c: (Expr, Seq<Stmt>),
) -> (Expr, Seq<Stmt>)
    decreases c,
{
    (ren_expr(m, c.0), ren_stmts(m, c.1))
}

pub open spec fn ren_cases(m: Map<Seq<char>, Seq<char>>, s: Seq<(Expr, Seq<Stmt>)>) -> Seq<(Expr, Seq<Stmt>)>
    decreases s,
{
    Seq::new(
        s.len(),
        |i: int|
            if 0 <= i < s.len() {
                ren_case(m, s[i])
            } else {
                arbitrary()
            },
    )
}

pub fn rename(m: &Dict<String>, n: &str) -> (r: String)
    ensures
        r@ == new_name(names_of(m@), n@),
{
    match m.get(n) {
        Some(s) => s.clone(),
        None => n.to_owned(),
    }
}

pub fn rename_opt(m: &Dict<String>, n: &Option<String>) -> (r: Option<String>)
    ensures
        model::opt_text(r) == new_opt_name(names_of(m@), model::opt_text(*n)),
{
    match n {
        Some(n) => Some(rename(m, n)),
        None => None,
    }
}

pub fn rename_val(m: &Dict<String>, v: &Value) -> (r: Value)
    ensures
        r@ == ren_val(names_of(m@), v@),
{
    match v {
        Value::Variable(n) => Value::Variable(rename(m, n)),
        _ => v.clone(),
    }
}

pub fn rename_expr(m: &Dict<String>, e: &Expression) -> (r: Expression)
    ensures
        r@ == ren_expr(names_of(m@), e@),
    decreases e,
{
    match e {
        Expression::Value(x) => Expression::Value(rename_val(m, x)),
        Expression::Binary { op, left, right } => Expression::Binary {
            op: *op,
            left: Box::new(rename_expr(m, left)),
            right: Box::new(rename_expr(m, right)),
        },
        Expression::Unary { op, operand } => Expression::Unary {
            op: *op,
            operand: Box::new(rename_expr(m, operand)),
        },
        Expression::Conditional { condition, then_expr, else_expr } => Expression::Conditional {
            condition: Box::new(rename_expr(m, condition)),
            then_expr: Box::new(rename_expr(m, then_expr)),
            else_expr: Box::new(rename_expr(m, else_expr)),
        },
        Expression::Member { object, property, optional } => Expression::Member {
            object: Box::new(rename_expr(m, object)),
            property: rename_key(m, property),
            optional: *optional,
        },
        Expression::Call { callee, arguments } => Expression::Call {
            callee: Box::new(rename_expr(m, callee)),
            arguments: rename_exprs(m, arguments),
        },
        Expression::New { callee, arguments } => Expression::New {
            callee: Box::new(rename_expr(m, callee)),
            arguments: rename_exprs(m, arguments),
        },
        Expression::Array { elements } => Expression::Array {
            elements: rename_elements(m, elements),
        },
        Expression::Object { properties } => Expression::Object {
            properties: rename_props(m, properties),
        },
        Expression::Function { .. } => e.clone(),
        Expression::Assignment { target, value } => Expression::Assignment {
            target: Box::new(rename_expr(m, target)),
            value: Box::new(rename_expr(m, value)),
        },
        Expression::Spread(x) => Expression::Spread(Box::new(rename_expr(m, x))),
        Expression::TemplateLiteral { quasis, expressions } => Expression::TemplateLiteral {
            quasis: clone_texts(quasis),
            expressions: rename_exprs(m, expressions),
        },
        Expression::RegExp { .. } => e.clone(),
        Expression::Yield { value, delegate } => Expression::Yield {
            value: Box::new(rename_expr(m, value)),
            delegate: *delegate,
        },
        Expression::Await(x) => Expression::Await(Box::new(rename_expr(m, x))),
        Expression::JSXElement { tag, attributes, children } => Expression::JSXElement {
            tag: tag.clone(),
            attributes: rename_attrs(m, attributes),
            children: rename_exprs(m, children),
        },
        Expression::Unknown { .. } => e.clone(),
    }
}

pub fn rename_key(m: &Dict<String>, e: &PropertyKey) -> (r: PropertyKey)
    ensures
        r@ == ren_key(names_of(m@), e@),
    decreases e,
{
    match e {
        PropertyKey::Ident(_) => e.clone(),
        PropertyKey::String(_) => e.clone(),
        PropertyKey::Index(_) => e.clone(),
        PropertyKey::Computed(x) => PropertyKey::Computed(Box::new(rename_expr(m, x))),
    }
}

pub fn rename_target(m: &Dict<String>, e: &AssignTarget) -> (r: AssignTarget)
    ensures
        r@ == ren_target(names_of(m@), e@),
    decreases e,
{
    match e {
        AssignTarget::Register(_) => e.clone(),
        AssignTarget::Variable(x) => AssignTarget::Variable(rename(m, x)),
        AssignTarget::Member { object, property } => AssignTarget::Member {
            object: rename_expr(m, object),
            property: property.clone(),
        },
        AssignTarget::Index { object, key } => AssignTarget::Index {
            object: rename_expr(m, object),
            key: rename_expr(m, key),
        },
        AssignTarget::DestructuringArray(x) => AssignTarget::DestructuringArray(rename_slots(m, x)),
        AssignTarget::DestructuringArrayRest { elements, rest } => AssignTarget::DestructuringArrayRest {
            elements: rename_slots(m, elements),
            rest: Box::new(rename_target(m, rest)),
        },
        AssignTarget::DestructuringObject(x) => AssignTarget::DestructuringObject(rename_fields(m, x)),
        AssignTarget::DestructuringObjectRest { properties, rest } => AssignTarget::DestructuringObjectRest {
            properties: rename_fields(m, properties),
            rest: Box::new(rename_target(m, rest)),
        },
    }
}

pub fn rename_stmt(m: &Dict<String>, e: &Statement) -> (r: Statement)
    ensures
        r@ == ren_stmt(names_of(m@), e@),
    decreases e,
{
    match e {
        Statement::Expr(x) => Statement::Expr(rename_expr(m, x)),
        Statement::Let { name, value, kind } => Statement::Let {
            name: rename(m, name),
            value: rename_expr(m, value),
            kind: *kind,
        },
        Statement::Assign { target, value } => Statement::Assign {
            target: rename_target(m, target),
            value: rename_expr(m, value),
        },
        Statement::Return(x) => Statement::Return(rename_opt_expr(m, x)),
        Statement::Throw(x) => Statement::Throw(rename_expr(m, x)),
        Statement::If { condition, then_body, else_body } => Statement::If {
            condition: rename_expr(m, condition),
            then_body: rename_stmts(m, then_body),
            else_body: rename_stmts(m, else_body),
        },
        Statement::While { condition, body } => Statement::While {
            condition: rename_expr(m, condition),
            body: rename_stmts(m, body),
        },
        Statement::DoWhile { body, condition } => Statement::DoWhile {
            body: rename_stmts(m, body),
            condition: rename_expr(m, condition),
        },
        Statement::For { init, condition, update, body } => Statement::For {
            init: rename_opt_stmt(m, init),
            condition: rename_opt_expr(m, condition),
            update: rename_opt_stmt(m, update),
            body: rename_stmts(m, body),
        },
        Statement::ForIn { variable, object, body } => Statement::ForIn {
            variable: rename(m, variable),
            object: rename_expr(m, object),
            body: rename_stmts(m, body),
        },
        Statement::ForOf { variable, iterable, body } => Statement::ForOf {
            variable: rename(m, variable),
            iterable: rename_expr(m, iterable),
            body: rename_stmts(m, body),
        },
        Statement::Block(x) => Statement::Block(rename_stmts(m, x)),
        Statement::TryCatch { try_body, catch_param, catch_body, finally_body } => Statement::TryCatch {
            try_body: rename_stmts(m, try_body),
            catch_param: rename_opt(m, catch_param),
            catch_body: rename_stmts(m, catch_body),
            finally_body: rename_stmts(m, finally_body),
        },
        Statement::Switch { discriminant, cases, default } => Statement::Switch {
            discriminant: rename_expr(m, discriminant),
            cases: rename_cases(m, cases),
            default: rename_opt_stmts(m, default),
        },
        Statement::Class { name, super_class, constructor, methods } => Statement::Class {
            name: name.clone(),
            super_class: rename_opt_expr(m, super_class),
            constructor: *constructor,
            methods: clone_methods(methods),
        },
        Statement::Comment(_) => e.clone(),
        Statement::Break(_) => e.clone(),
        Statement::Continue(_) => e.clone(),
    }
}

pub fn rename_opt_expr(m: &Dict<String>, o: &Option<Expression>) -> (r: Option<Expression>)
    ensures
        model::opt_expr(r) == ren_opt_expr(names_of(m@), model::opt_expr(*o)),
    decreases o,
{
    match o {
        Some(x) => Some(rename_expr(m, x)),
        None => None,
    }
}

pub fn rename_exprs(m: &Dict<String>, v: &Vec<Expression>) -> (r: Vec<Expression>)
    ensures
        model::exprs(r@) == ren_exprs(names_of(m@), model::exprs(v@)),
    decreases v,
{
    let mut out: Vec<Expression> = Vec::new();
    let mut i: usize = 0;
    while i < v.len()
        invariant
            i <= v.len(),
            out.len() == i,
            forall|k: int|
                0 <= k < i ==> (#[trigger] out@[k])@ == ren_expr(names_of(m@), v@[k]@),
        decreases v.len() - i,
    {
        out.push(rename_expr(m, &v[i]));
        i += 1;
    }
    assert(model::exprs(out@) =~= ren_exprs(names_of(m@), model::exprs(v@)));
    out
}

pub fn rename_elements(m: &Dict<String>, v: &Vec<Option<Expression>>) -> (r: Vec<Option<Expression>>)
    ensures
        model::opt_exprs(r@) == ren_elements(names_of(m@), model::opt_exprs(v@)),
    decreases v,
{
    let mut out: Vec<Option<Expression>> = Vec::new();
    let mut i: usize = 0;
    while i < v.len()
        invariant
            i <= v.len(),
            out.len() == i,
            forall|k: int|
                0 <= k < i ==> model::opt_expr(#[trigger] out@[k]) == ren_opt_expr(names_of(m@), model::opt_expr(v@[k])),
        decreases v.len() - i,
    {
        out.push(rename_opt_expr(m, &v[i]));
        i += 1;
    }
    assert(model::opt_exprs(out@) =~= ren_elements(names_of(m@), model::opt_exprs(v@)));
    out
}

pub fn rename_props(m: &Dict<String>, v: &Vec<ObjectProperty>) -> (r: Vec<ObjectProperty>)
    ensures
        model::props(r@) == ren_props(names_of(m@), model::props(v@)),
    decreases v,
{
    let mut out: Vec<ObjectProperty> = Vec::new();
    let mut i: usize = 0;
    while i < v.len()
        invariant
            i <= v.len(),
            out.len() == i,
            forall|k: int|
                0 <= k < i ==> (#[trigger] out@[k])@ == ren_prop(names_of(m@), v@[k]@),
        decreases v.len() - i,
    {
        out.push(ObjectProperty {
            key: rename_key(m, &v[i].key),
            value: rename_expr(m, &v[i].value),
        });
        i += 1;
    }
    assert(model::props(out@) =~= ren_props(names_of(m@), model::props(v@)));
    out
}

pub fn rename_attrs(m: &Dict<String>, v: &Vec<(String, Expression)>) -> (r: Vec<(String, Expression)>)
    ensures
        model::attrs(r@) == ren_attrs(names_of(m@), model::attrs(v@)),
    decreases v,
{
    let mut out: Vec<(String, Expression)> = Vec::new();
    let mut i: usize = 0;
    while i < v.len()
        invariant
            i <= v.len(),
            out.len() == i,
            forall|k: int|
                0 <= k < i ==> model::attr(#[trigger] out@[k]) == ren_attr(names_of(m@), model::attr(v@[k])),
        decreases v.len() - i,
    {
        out.push((v[i].0.clone(), rename_expr(m, &v[i].1)));
        i += 1;
    }
    assert(model::attrs(out@) =~= ren_attrs(names_of(m@), model::attrs(v@)));
    out
}

pub fn rename_slot(
    m: &Dict<String>,
    o: &Option<(AssignTarget, Option<Expression>)>,
) -> (r: Option<(AssignTarget, Option<Expression>)>)
    ensures
        model::slot(r) == ren_slot(names_of(m@), model::slot(*o)),
    decreases o,
{
    match o {
        Some(p) => Some((rename_target(m, &p.0), rename_opt_expr(m, &p.1))),
        None => None,
    }
}

pub fn rename_slots(m: &Dict<String>, v: &Vec<Option<(AssignTarget, Option<Expression>)>>) -> (r: Vec<Option<(AssignTarget, Option<Expression>)>>)
    ensures
        model::slots(r@) == ren_slots(names_of(m@), model::slots(v@)),
    decreases v,
{
    let mut out: Vec<Option<(AssignTarget, Option<Expression>)>> = Vec::new();
    let mut i: usize = 0;
    while i < v.len()
        invariant
            i <= v.len(),
            out.len() == i,
            forall|k: int|
                0 <= k < i ==> model::slot(#[trigger] out@[k]) == ren_slot(names_of(m@), model::slot(v@[k])),
        decreases v.len() - i,
    {
        out.push(rename_slot(m, &v[i]));
        i += 1;
    }
    assert(model::slots(out@) =~= ren_slots(names_of(m@), model::slots(v@)));
    out
}

pub fn rename_fields(m: &Dict<String>, v: &Vec<(String, AssignTarget, Option<Expression>)>) -> (r: Vec<(String, AssignTarget, Option<Expression>)>)
    ensures
        model::fields(r@) == ren_fields(names_of(m@), model::fields(v@)),
    decreases v,
{
    let mut out: Vec<(String, AssignTarget, Option<Expression>)> = Vec::new();
    let mut i: usize = 0;
    while i < v.len()
        invariant
            i <= v.len(),
            out.len() == i,
            forall|k: int|
                0 <= k < i ==> model::field(#[trigger] out@[k]) == ren_field(names_of(m@), model::field(v@[k])),
        decreases v.len() - i,
    {
        out.push((v[i].0.clone(), rename_target(m, &v[i].1), rename_opt_expr(m, &v[i].2)));
        i += 1;
    }
    assert(model::fields(out@) =~= ren_fields(names_of(m@), model::fields(v@)));
    out
}

pub fn rename_stmts(m: &Dict<String>, v: &Vec<Statement>) -> (r: Vec<Statement>)
    ensures
        model::stmts(r@) == ren_stmts(names_of(m@), model::stmts(v@)),
    decreases v,
{
    let mut out: Vec<Statement> = Vec::new();
    let mut i: usize = 0;
    while i < v.len()
        invariant
            i <= v.len(),
            out.len() == i,
            forall|k: int|
                0 <= k < i ==> (#[trigger] out@[k])@ == ren_stmt(names_of(m@), v@[k]@),
        decreases v.len() - i,
    {
        out.push(rename_stmt(m, &v[i]));
        i += 1;
    }
    assert(model::stmts(out@) =~= ren_stmts(names_of(m@), model::stmts(v@)));
    out
}

pub fn rename_opt_stmt(m: &Dict<String>, o: &Option<Box<Statement>>) -> (r: Option<Box<Statement>>)
    ensures
        model::opt_stmt(r) == ren_opt_stmt(names_of(m@), model::opt_stmt(*o)),
    decreases o,
{
    match o {
        Some(x) => Some(Box::new(rename_stmt(m, x))),
        None => None,
    }
}

pub fn rename_opt_stmts(m: &Dict<String>, o: &Option<Vec<Statement>>) -> (r: Option<Vec<Statement>>)
    ensures
        model::opt_stmts(r) == ren_opt_stmts(names_of(m@), model::opt_stmts(*o)),
    decreases o,
{
    match o {
        Some(x) => Some(rename_stmts(m, x)),
        None => None,
    }
}

pub fn rename_cases(m: &Dict<String>, v: &Vec<(Expression, Vec<Statement>)>) -> (r: Vec<(Expression, Vec<Statement>)>)
    ensures
        model::case_arms(r@) == ren_cases(names_of(m@), model::case_arms(v@)),
    decreases v,
{
    let mut out: Vec<(Expression, Vec<Statement>)> = Vec::new();
    let mut i: usize = 0;
    while i < v.len()
        invariant
            i <= v.len(),
            out.len() == i,
            forall|k: int|
                0 <= k < i ==> model::case_arm(#[trigger] out@[k]) == ren_case(names_of(m@), model::case_arm(v@[k])),
        decreases v.len() - i,
    {
        out.push((rename_expr(m, &v[i].0), rename_stmts(m, &v[i].1)));
        i += 1;
    }
    assert(model::case_arms(out@) =~= ren_cases(names_of(m@), model::case_arms(v@)));
    out
}

} // verus!
